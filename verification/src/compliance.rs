//! # Compliance
//!
//! The KYC allowlist and the jurisdiction rules that decide who may hold or
//! move a tokenized asset. The asset token asks [`ComplianceContract::is_allowed`]
//! on every transfer, for both parties, and on every mint, for the recipient.
//!
//! Time is counted in ledger sequence numbers. An `expires_at` of 0 means that
//! an approval never expires.
//!
//! The administrator of this contract has nothing to do with the administrator
//! of an asset token that points at it: the two can be different addresses, and
//! neither has any power over the other's contract.
use vstd::prelude::*;

use crate::address::Address;
use crate::compliance_laws::{
    law_approve_keeps_wf, law_blank_is_wf, law_block_keeps_wf, law_prune_keeps_wf,
    law_remove_keeps_wf, law_role_change_keeps_wf, law_suspend_keeps_wf,
};
use crate::invocation::{Extension, Invocation};
use crate::roles::{
    accept_refusal, admin_refusal, cancel_refusal, init_refusal, AdminRole, RoleRefusal,
};
use crate::table::{Key, Table};

verus! {

/// Behavior version. Changes with the storage layout or with what callers see.
pub const VERSION: u32 = 1;

/// The most addresses on one page of the allowlist, so that no storage entry
/// grows with the list.
pub const ALLOWLIST_PAGE_SIZE: u32 = 200;

/// A country code: two upper-case letters, as in "US", "KE" or "DE".
#[derive(Clone, Copy, Debug, PartialEq, Eq, Structural)]
pub struct CountryCode {
    pub first: u8,
    pub second: u8,
}

impl Key for CountryCode {
    fn same(self, other: Self) -> (r: bool) {
        self == other
    }
}

/// The approval state of an address.
#[derive(Clone, Copy, Debug, PartialEq, Eq, Structural)]
pub enum ComplianceStatus {
    Approved,
    Pending,
    Rejected,
    Suspended,
}

/// The KYC record of an address.
#[derive(Clone, Copy, Debug, PartialEq, Eq, Structural)]
pub struct KycRecord {
    pub address: Address,
    pub status: ComplianceStatus,
    pub jurisdiction: CountryCode,
    /// Ledger sequence at which the record was verified.
    pub verified_at: u32,
    /// Ledger sequence at which the approval expires; 0 means never.
    pub expires_at: u32,
}

/// Why a call is refused. Signalled to callers by its code.
#[derive(Clone, Copy, Debug, PartialEq, Eq, Structural)]
pub enum Error {
    AlreadyInitialized,
    NotInitialized,
    RecordNotFound,
    InvalidExpiry,
    Unauthorized,
    InvalidJurisdiction,
    /// There is no admin proposal to accept or to cancel.
    NoPendingAdmin,
}

/// The number that stands for an error in the contract interface.
pub open spec fn error_code(e: Error) -> u32 {
    match e {
        Error::AlreadyInitialized => 1,
        Error::NotInitialized => 2,
        Error::RecordNotFound => 3,
        Error::InvalidExpiry => 4,
        Error::Unauthorized => 5,
        Error::InvalidJurisdiction => 6,
        Error::NoPendingAdmin => 7,
    }
}

impl Error {
    /// The number that stands for the error in the contract interface.
    pub fn code(self) -> (r: u32)
        ensures
            r == error_code(self),
    {
        match self {
            Error::AlreadyInitialized => 1,
            Error::NotInitialized => 2,
            Error::RecordNotFound => 3,
            Error::InvalidExpiry => 4,
            Error::Unauthorized => 5,
            Error::InvalidJurisdiction => 6,
            Error::NoPendingAdmin => 7,
        }
    }
}

/// How a call ends without having done anything.
#[derive(Clone, Copy, Debug, PartialEq, Eq, Structural)]
pub enum Abort {
    Error(Error),
    /// The address has not authorized the call.
    Unsigned(Address),
}

/// A published event.
#[derive(Clone, Copy, Debug, PartialEq, Eq, Structural)]
pub enum Event {
    Init { admin: Address },
    Approved { address: Address, jurisdiction: CountryCode, expires_at: u32 },
    Suspend { address: Address },
    Removed { address: Address },
    Expired { address: Address, expires_at: u32 },
    BlockJur { jurisdiction: CountryCode },
    UnblkJur { jurisdiction: CountryCode },
    Proposed { admin: Address, new_admin: Address },
    Cancelled { admin: Address },
    SetAdmin { old_admin: Address, new_admin: Address },
}

/// A call of the compliance contract. It extends the lifetime of no entry on
/// its own.
pub type Call = Invocation<Event, ()>;

/// The abort that a refusal by the administrator's role comes to.
pub open spec fn role_abort(e: RoleRefusal) -> Abort {
    match e {
        RoleRefusal::AlreadyInitialized => Abort::Error(Error::AlreadyInitialized),
        RoleRefusal::NotInitialized => Abort::Error(Error::NotInitialized),
        RoleRefusal::Unsigned(who) => Abort::Unsigned(who),
        RoleRefusal::Unauthorized => Abort::Error(Error::Unauthorized),
        RoleRefusal::NoPendingAdmin => Abort::Error(Error::NoPendingAdmin),
    }
}

fn abort_of(e: RoleRefusal) -> (r: Abort)
    ensures
        r == role_abort(e),
{
    match e {
        RoleRefusal::AlreadyInitialized => Abort::Error(Error::AlreadyInitialized),
        RoleRefusal::NotInitialized => Abort::Error(Error::NotInitialized),
        RoleRefusal::Unsigned(who) => Abort::Unsigned(who),
        RoleRefusal::Unauthorized => Abort::Error(Error::Unauthorized),
        RoleRefusal::NoPendingAdmin => Abort::Error(Error::NoPendingAdmin),
    }
}

// ---- jurisdictions ----

/// A text without its spaces.
pub open spec fn without_spaces(raw: Seq<u8>) -> Seq<u8>
    decreases raw.len(),
{
    if raw.len() == 0 {
        Seq::empty()
    } else if raw.last() == 0x20 {
        without_spaces(raw.drop_last())
    } else {
        without_spaces(raw.drop_last()).push(raw.last())
    }
}

/// Whether a byte is an ASCII letter.
pub open spec fn is_letter(b: u8) -> bool {
    0x41 <= b <= 0x5a || 0x61 <= b <= 0x7a
}

/// An ASCII letter in upper case; any other byte as it is.
pub open spec fn upper(b: u8) -> u8 {
    if 0x61 <= b <= 0x7a {
        (b - 0x20) as u8
    } else {
        b
    }
}

/// The country code that a text spells: without its spaces it is two letters,
/// in either case.
pub open spec fn country_named(raw: Seq<u8>) -> Option<CountryCode> {
    let text = without_spaces(raw);
    if text.len() == 2 && is_letter(text[0]) && is_letter(text[1]) {
        Some(CountryCode { first: upper(text[0]), second: upper(text[1]) })
    } else {
        None
    }
}

/// A text begins, its spaces aside, as each of its beginnings does.
proof fn lemma_without_spaces_prefix(raw: Seq<u8>, n: int)
    requires
        0 <= n <= raw.len(),
    ensures
        without_spaces(raw.take(n)).len() <= without_spaces(raw).len(),
        forall|i: int|
            0 <= i < without_spaces(raw.take(n)).len() ==> #[trigger] without_spaces(raw)[i]
                == without_spaces(raw.take(n))[i],
    decreases raw.len(),
{
    if n == raw.len() {
        assert(raw.take(n) =~= raw);
    } else {
        let front = raw.drop_last();
        assert(front.take(n) =~= raw.take(n));
        lemma_without_spaces_prefix(front, n);
        assert forall|i: int| 0 <= i < without_spaces(raw.take(n)).len() implies #[trigger]
            without_spaces(raw)[i] == without_spaces(raw.take(n))[i] by {
            assert(without_spaces(front)[i] == without_spaces(raw.take(n))[i]);
        }
    }
}

/// The country code that `jurisdiction` spells. Spaces are ignored and letters
/// are taken in either case; anything but two letters is refused.
pub fn normalize_jurisdiction(jurisdiction: &Vec<u8>) -> (r: Option<CountryCode>)
    ensures
        r == country_named(jurisdiction@),
{
    let mut first: u8 = 0;
    let mut second: u8 = 0;
    let mut found: usize = 0;
    let mut i: usize = 0;
    let ghost raw = jurisdiction@;
    assert(raw.take(0).len() == 0);
    while i < jurisdiction.len()
        invariant
            raw == jurisdiction@,
            i <= raw.len(),
            found <= 2,
            found == without_spaces(raw.take(i as int)).len(),
            forall|j: int| 0 <= j < found ==> is_letter(without_spaces(raw.take(i as int))[j]),
            found >= 1 ==> first == upper(without_spaces(raw.take(i as int))[0]),
            found >= 2 ==> second == upper(without_spaces(raw.take(i as int))[1]),
        decreases raw.len() - i,
    {
        let b = jurisdiction[i];
        let ghost next = raw.take(i + 1);
        proof {
            assert(next.drop_last() =~= raw.take(i as int));
            assert(next.last() == b);
            lemma_without_spaces_prefix(raw, i + 1);
        }
        if b != 0x20 {
            let is_lower = b >= 0x61 && b <= 0x7a;
            let is_upper = b >= 0x41 && b <= 0x5a;
            if found >= 2 || !(is_lower || is_upper) {
                assert(without_spaces(raw)[found as int] == without_spaces(next)[found as int]);
                return None;
            }
            let letter: u8 = if is_lower {
                b - 0x20
            } else {
                b
            };
            if found == 0 {
                first = letter;
            } else {
                second = letter;
            }
            found += 1;
        }
        i += 1;
    }
    assert(raw.take(i as int) =~= raw);
    if found != 2 {
        return None;
    }
    Some(CountryCode { first, second })
}

// ---- state ----

/// The compliance contract's storage.
///
/// The allowlist is kept in pages. A new address goes on the last page until
/// that has taken its full number; a removed address leaves a gap, and pages
/// are never repacked.
#[derive(Debug)]
pub struct ComplianceContract {
    pub role: AdminRole,
    /// The page to which addresses are appended.
    pub page: u32,
    /// How many addresses were appended to that page.
    pub page_len: u32,
    pub pages: Table<u32, Vec<Address>>,
    /// The page on which an address is.
    pub page_of: Table<Address, u32>,
    pub records: Table<Address, KycRecord>,
    pub blocked: Table<CountryCode, bool>,
}

/// A [`ComplianceContract`] as maps and sequences.
#[verifier::ext_equal]
pub struct ComplianceView {
    pub role: AdminRole,
    pub page: u32,
    pub page_len: u32,
    pub pages: Map<u32, Seq<Address>>,
    pub page_of: Map<Address, u32>,
    pub records: Map<Address, KycRecord>,
    pub blocked: Map<CountryCode, bool>,
}

/// Each page of a map by its view.
pub open spec fn page_views(m: Map<u32, Vec<Address>>) -> Map<u32, Seq<Address>> {
    m.map_values(|v: Vec<Address>| v@)
}

impl View for ComplianceContract {
    type V = ComplianceView;

    open spec fn view(&self) -> ComplianceView {
        ComplianceView {
            role: self.role,
            page: self.page,
            page_len: self.page_len,
            pages: page_views(self.pages@),
            page_of: self.page_of@,
            records: self.records@,
            blocked: self.blocked@,
        }
    }
}

/// The addresses on a page; none if the page is absent.
pub open spec fn on_page(pages: Map<u32, Seq<Address>>, p: u32) -> Seq<Address> {
    if pages.contains_key(p) {
        pages[p]
    } else {
        Seq::empty()
    }
}

/// The addresses on the first `n` pages, page after page.
pub open spec fn listing(pages: Map<u32, Seq<Address>>, n: nat) -> Seq<Address>
    decreases n,
{
    if n == 0 {
        Seq::empty()
    } else {
        listing(pages, (n - 1) as nat) + on_page(pages, (n - 1) as u32)
    }
}

/// A list without an address.
pub open spec fn without(list: Seq<Address>, who: Address) -> Seq<Address>
    decreases list.len(),
{
    if list.len() == 0 {
        Seq::empty()
    } else if list.last() == who {
        without(list.drop_last(), who)
    } else {
        without(list.drop_last(), who).push(list.last())
    }
}

/// Whether an approval has run out at ledger `now`.
pub open spec fn expired(record: KycRecord, now: u32) -> bool {
    record.expires_at != 0 && now >= record.expires_at
}

/// Whether an address has a record that has not run out.
pub open spec fn current(records: Map<Address, KycRecord>, now: u32, who: Address) -> bool {
    records.contains_key(who) && !expired(records[who], now)
}

/// Whether an address has a record that has run out.
pub open spec fn lapsed(records: Map<Address, KycRecord>, now: u32, who: Address) -> bool {
    records.contains_key(who) && expired(records[who], now)
}

/// Those on a list whose record has not run out.
pub open spec fn kept(list: Seq<Address>, records: Map<Address, KycRecord>, now: u32) -> Seq<Address>
    decreases list.len(),
{
    if list.len() == 0 {
        Seq::empty()
    } else if current(records, now, list.last()) {
        kept(list.drop_last(), records, now).push(list.last())
    } else {
        kept(list.drop_last(), records, now)
    }
}

/// Those on a list whose record has run out.
pub open spec fn dropped(list: Seq<Address>, records: Map<Address, KycRecord>, now: u32) -> Set<
    Address,
> {
    Set::new(|a: Address| list.contains(a) && lapsed(records, now, a))
}

/// The events of those on a list whose record has run out, one for each.
pub open spec fn expiries(list: Seq<Address>, records: Map<Address, KycRecord>, now: u32) -> Seq<
    Event,
>
    decreases list.len(),
{
    if list.len() == 0 {
        Seq::empty()
    } else {
        let rest = expiries(list.drop_last(), records, now);
        let last = list.last();
        if lapsed(records, now, last) && !list.drop_last().contains(last) {
            rest.push(Event::Expired { address: last, expires_at: records[last].expires_at })
        } else {
            rest
        }
    }
}

/// The pages once those before `n` hold only what is kept.
pub open spec fn kept_pages(
    pages: Map<u32, Seq<Address>>,
    n: int,
    records: Map<Address, KycRecord>,
    now: u32,
) -> Map<u32, Seq<Address>> {
    Map::new(
        |p: u32| pages.contains_key(p),
        |p: u32|
            if p < n {
                kept(pages[p], records, now)
            } else {
                pages[p]
            },
    )
}

/// Whether a jurisdiction is blocked.
pub open spec fn is_blocked(s: ComplianceView, code: CountryCode) -> bool {
    s.blocked.contains_key(code) && s.blocked[code]
}

/// Whether an address may hold and move the asset at ledger `now`: it has a
/// record that is approved, has not run out, and is of a jurisdiction that is
/// not blocked.
pub open spec fn allowed(s: ComplianceView, now: u32, who: Address) -> bool {
    &&& s.records.contains_key(who)
    &&& s.records[who].status == ComplianceStatus::Approved
    &&& !expired(s.records[who], now)
    &&& !is_blocked(s, s.records[who].jurisdiction)
}

/// What is published by asking: that an approval was found to have run out.
pub open spec fn query_events(s: ComplianceView, now: u32, who: Address) -> Seq<Event> {
    if lapsed(s.records, now, who) && s.records[who].status == ComplianceStatus::Approved {
        seq![Event::Expired { address: who, expires_at: s.records[who].expires_at }]
    } else {
        Seq::empty()
    }
}

/// Why an approval is refused.
pub open spec fn approve_refusal(
    s: ComplianceView,
    signed: Seq<Address>,
    now: u32,
    admin: Address,
    jurisdiction: Seq<u8>,
    expires_at: u32,
) -> Option<Abort> {
    if admin_refusal(s.role, signed, admin) is Some {
        Some(role_abort(admin_refusal(s.role, signed, admin)->0))
    } else if expires_at != 0 && expires_at <= now {
        Some(Abort::Error(Error::InvalidExpiry))
    } else if country_named(jurisdiction) is None {
        Some(Abort::Error(Error::InvalidJurisdiction))
    } else {
        None
    }
}

/// Why a suspension or a removal is refused.
pub open spec fn record_refusal(
    s: ComplianceView,
    signed: Seq<Address>,
    admin: Address,
    address: Address,
) -> Option<Abort> {
    if admin_refusal(s.role, signed, admin) is Some {
        Some(role_abort(admin_refusal(s.role, signed, admin)->0))
    } else if !s.records.contains_key(address) {
        Some(Abort::Error(Error::RecordNotFound))
    } else {
        None
    }
}

/// Why a jurisdiction is not blocked or unblocked.
pub open spec fn jurisdiction_refusal(
    s: ComplianceView,
    signed: Seq<Address>,
    admin: Address,
    jurisdiction: Seq<u8>,
) -> Option<Abort> {
    if admin_refusal(s.role, signed, admin) is Some {
        Some(role_abort(admin_refusal(s.role, signed, admin)->0))
    } else if country_named(jurisdiction) is None {
        Some(Abort::Error(Error::InvalidJurisdiction))
    } else {
        None
    }
}

impl ComplianceView {
    /// The contract before it is initialized.
    pub open spec fn blank() -> ComplianceView {
        ComplianceView {
            role: AdminRole::vacant(),
            page: 0,
            page_len: 0,
            pages: Map::empty(),
            page_of: Map::empty(),
            records: Map::empty(),
            blocked: Map::empty(),
        }
    }

    /// The contract with another role.
    pub open spec fn with_role(self, role: AdminRole) -> ComplianceView {
        ComplianceView { role, ..self }
    }

    /// Whether the next new address goes on a page of its own.
    pub open spec fn page_is_full(self) -> bool {
        self.page_len >= ALLOWLIST_PAGE_SIZE
    }

    /// The contract once `address` is appended to the allowlist.
    pub open spec fn appended(self, address: Address) -> ComplianceView {
        let page = if self.page_is_full() {
            (self.page + 1) as u32
        } else {
            self.page
        };
        ComplianceView {
            page,
            page_len: if self.page_is_full() {
                1
            } else {
                (self.page_len + 1) as u32
            },
            pages: self.pages.insert(page, on_page(self.pages, page).push(address)),
            page_of: self.page_of.insert(address, page),
            ..self
        }
    }

    /// The contract once `record` is on file. Only an address without a record
    /// is appended to the allowlist: any other is on it.
    pub open spec fn approved(self, record: KycRecord) -> ComplianceView {
        let filed = ComplianceView {
            records: self.records.insert(record.address, record),
            ..self
        };
        if self.records.contains_key(record.address) {
            filed
        } else {
            filed.appended(record.address)
        }
    }

    /// The contract once the record of `address` is suspended.
    pub open spec fn suspended(self, address: Address) -> ComplianceView {
        ComplianceView {
            records: self.records.insert(
                address,
                KycRecord { status: ComplianceStatus::Suspended, ..self.records[address] },
            ),
            ..self
        }
    }

    /// The contract once `address` is struck off the allowlist.
    pub open spec fn struck(self, address: Address) -> ComplianceView {
        if self.page_of.contains_key(address) {
            let page = self.page_of[address];
            ComplianceView {
                pages: self.pages.insert(page, without(on_page(self.pages, page), address)),
                page_of: self.page_of.remove(address),
                ..self
            }
        } else {
            self
        }
    }

    /// The contract once `address` is removed.
    pub open spec fn removed(self, address: Address) -> ComplianceView {
        (ComplianceView { records: self.records.remove(address), ..self }).struck(address)
    }

    /// The contract once a jurisdiction is blocked.
    pub open spec fn blocking(self, code: CountryCode) -> ComplianceView {
        ComplianceView { blocked: self.blocked.insert(code, true), ..self }
    }

    /// The contract once a jurisdiction is not blocked any more.
    pub open spec fn unblocking(self, code: CountryCode) -> ComplianceView {
        ComplianceView { blocked: self.blocked.remove(code), ..self }
    }

    /// Every address on the allowlist, page after page.
    pub open spec fn allowlist(self) -> Seq<Address> {
        listing(self.pages, self.page as nat + 1)
    }

    /// The contract once every record on the allowlist that has run out at
    /// ledger `now` is gone.
    pub open spec fn pruned(self, now: u32) -> ComplianceView {
        let gone = dropped(self.allowlist(), self.records, now);
        ComplianceView {
            pages: kept_pages(self.pages, self.page + 1, self.records, now),
            page_of: self.page_of.remove_keys(gone),
            records: self.records.remove_keys(gone),
            ..self
        }
    }
}

/// Whether a country code is two upper-case letters.
pub open spec fn code_wf(code: CountryCode) -> bool {
    0x41 <= code.first <= 0x5a && 0x41 <= code.second <= 0x5a
}

/// Whether a record is one that approval and suspension leave for an address.
pub open spec fn record_wf(record: KycRecord, who: Address) -> bool {
    &&& record.address == who
    &&& record.status == ComplianceStatus::Approved || record.status == ComplianceStatus::Suspended
    &&& code_wf(record.jurisdiction)
}

impl ComplianceView {
    /// What holds of the contract after every call: the addresses with a record
    /// are those on the allowlist, each is on one page and once there, no page
    /// is over its number, and what is on record is in order.
    pub open spec fn wf(self) -> bool {
        &&& self.role.wf()
        &&& self.page_len <= ALLOWLIST_PAGE_SIZE
        &&& on_page(self.pages, self.page).len() <= self.page_len
        &&& forall|p: u32| #[trigger]
            self.pages.contains_key(p) ==> p <= self.page && self.pages[p].len()
                <= ALLOWLIST_PAGE_SIZE && self.pages[p].no_duplicates()
        &&& forall|a: Address|
            #![trigger self.page_of.contains_key(a)]
            #![trigger self.records.contains_key(a)]
            self.page_of.contains_key(a) <==> self.records.contains_key(a)
        &&& forall|a: Address| #[trigger]
            self.page_of.contains_key(a) ==> on_page(self.pages, self.page_of[a]).contains(a)
        &&& forall|p: u32, a: Address| #[trigger]
            on_page(self.pages, p).contains(a) ==> self.page_of.contains_key(a)
                && self.page_of[a] == p
        &&& forall|a: Address| #[trigger]
            self.records.contains_key(a) ==> record_wf(self.records[a], a)
        &&& forall|c: CountryCode| #[trigger]
            self.blocked.contains_key(c) ==> self.blocked[c] && code_wf(c)
    }
}

/// Filing one more page files its view.
proof fn lemma_page_views_insert(m: Map<u32, Vec<Address>>, p: u32, v: Vec<Address>)
    ensures
        page_views(m.insert(p, v)) == page_views(m).insert(p, v@),
{
    assert(page_views(m.insert(p, v)) =~= page_views(m).insert(p, v@));
}

/// Records that have run out can be taken away without changing who is
/// current.
proof fn lemma_kept_frame(
    list: Seq<Address>,
    records: Map<Address, KycRecord>,
    gone: Set<Address>,
    now: u32,
)
    requires
        forall|a: Address| #[trigger] gone.contains(a) ==> lapsed(records, now, a),
    ensures
        kept(list, records.remove_keys(gone), now) == kept(list, records, now),
    decreases list.len(),
{
    if list.len() > 0 {
        lemma_kept_frame(list.drop_last(), records, gone, now);
        let last = list.last();
        assert(gone.contains(last) ==> lapsed(records, now, last));
    }
}

/// Pruning a list and then another is pruning both, one after the other.
proof fn lemma_prune_append(
    done: Seq<Address>,
    list: Seq<Address>,
    records: Map<Address, KycRecord>,
    now: u32,
)
    ensures
        ({
            let left = records.remove_keys(dropped(done, records, now));
            &&& left.remove_keys(dropped(list, left, now)) == records.remove_keys(
                dropped(done + list, records, now),
            )
            &&& expiries(done, records, now) + expiries(list, left, now) == expiries(
                done + list,
                records,
                now,
            )
            &&& dropped(done, records, now) + dropped(list, left, now) == dropped(
                done + list,
                records,
                now,
            )
        }),
    decreases list.len(),
{
    let left = records.remove_keys(dropped(done, records, now));
    let both = done + list;
    assert forall|a: Address| both.contains(a) <==> done.contains(a) || list.contains(a) by {
        if done.contains(a) {
            let k = choose|k: int| 0 <= k < done.len() && done[k] == a;
            assert(both[k] == a);
        }
        if list.contains(a) {
            let k = choose|k: int| 0 <= k < list.len() && list[k] == a;
            assert(both[done.len() + k] == a);
        }
    }
    assert(dropped(done, records, now) + dropped(list, left, now) =~= dropped(both, records, now));
    assert(left.remove_keys(dropped(list, left, now)) =~= records.remove_keys(
        dropped(both, records, now),
    ));
    if list.len() == 0 {
        assert(both =~= done);
        assert(expiries(done, records, now) + expiries(list, left, now) =~= expiries(
            done,
            records,
            now,
        ));
    } else {
        let front = list.drop_last();
        lemma_prune_append(done, front, records, now);
        assert(both.drop_last() =~= done + front);
        let last = list.last();
        assert(both.last() == last);
        assert((done + front).contains(last) <==> done.contains(last) || front.contains(last)) by {
            if done.contains(last) {
                let k = choose|k: int| 0 <= k < done.len() && done[k] == last;
                assert((done + front)[k] == last);
            }
            if front.contains(last) {
                let k = choose|k: int| 0 <= k < front.len() && front[k] == last;
                assert((done + front)[done.len() + k] == last);
            }
        }
        assert(expiries(done, records, now) + expiries(list, left, now) =~= expiries(
            both,
            records,
            now,
        ));
    }
}

/// A copy of the addresses on a page; empty if the page is absent.
fn page_list(pages: &Table<u32, Vec<Address>>, p: u32) -> (r: Vec<Address>)
    ensures
        r@ == on_page(page_views(pages@), p),
{
    match pages.get(p) {
        Some(page) => {
            let r = page.clone();
            assert(r@ =~= page@);
            r
        },
        None => Vec::new(),
    }
}

impl ComplianceContract {
    /// The contract before it is initialized.
    pub fn new() -> (r: ComplianceContract)
        ensures
            r@ == ComplianceView::blank(),
            r@.wf(),
    {
        let r = ComplianceContract {
            role: AdminRole::new(),
            page: 0,
            page_len: 0,
            pages: Table::new(),
            page_of: Table::new(),
            records: Table::new(),
            blocked: Table::new(),
        };
        assert(r@ =~= ComplianceView::blank());
        proof {
            law_blank_is_wf();
        }
        r
    }

    /// Behavior version.
    pub fn version() -> (r: u32)
        ensures
            r == VERSION,
            r == 1,
    {
        VERSION
    }

    /// Initializes the contract with an admin. Possible once.
    pub fn initialize(&mut self, env: &mut Call, admin: Address) -> (r: Result<(), Abort>)
        ensures
            old(self)@.wf() ==> final(self)@.wf(),
            match r {
                Ok(_) => {
                    &&& init_refusal(old(self)@.role, old(env).authorized@, admin) is None
                    &&& final(self)@ == old(self)@.with_role(old(self)@.role.held_by(admin))
                    &&& final(env).leaves(
                        *old(env),
                        seq![Event::Init { admin }],
                        seq![Extension::Instance],
                    )
                },
                Err(a) => {
                    &&& init_refusal(old(self)@.role, old(env).authorized@, admin) matches Some(e)
                        && a == role_abort(e)
                    &&& final(self)@ == old(self)@
                    &&& *final(env) == *old(env)
                },
            },
    {
        match self.role.initialize(&env.authorized, admin) {
            Err(e) => Err(abort_of(e)),
            Ok(_) => {
                env.bump();
                env.publish(Event::Init { admin });
                proof {
                    if old(self)@.wf() {
                        law_role_change_keeps_wf(old(self)@, self.role);
                    }
                }
                Ok(())
            },
        }
    }

    /// Approves an address, or approves it again. Admin only.
    pub fn add_to_allowlist(
        &mut self,
        env: &mut Call,
        admin: Address,
        address: Address,
        jurisdiction: &Vec<u8>,
        expires_at: u32,
    ) -> (r: Result<(), Abort>)
        requires
            approve_refusal(
                old(self)@,
                old(env).authorized@,
                old(env).sequence,
                admin,
                jurisdiction@,
                expires_at,
            ) is None && !old(self)@.records.contains_key(address) && old(self)@.page_is_full()
                ==> old(self)@.page < u32::MAX,
        ensures
            old(self)@.wf() ==> final(self)@.wf(),
            ({
                let refusal = approve_refusal(
                    old(self)@,
                    old(env).authorized@,
                    old(env).sequence,
                    admin,
                    jurisdiction@,
                    expires_at,
                );
                match r {
                    Ok(_) => {
                        let code = country_named(jurisdiction@)->0;
                        &&& refusal is None
                        &&& final(self)@ == old(self)@.approved(
                            (KycRecord {
                                address,
                                status: ComplianceStatus::Approved,
                                jurisdiction: code,
                                verified_at: old(env).sequence,
                                expires_at,
                            }),
                        )
                        &&& final(env).leaves(
                            *old(env),
                            seq![Event::Approved { address, jurisdiction: code, expires_at }],
                            seq![Extension::Instance],
                        )
                    },
                    Err(a) => {
                        &&& refusal == Some(a)
                        &&& final(self)@ == old(self)@
                        &&& *final(env) == *old(env)
                    },
                }
            }),
    {
        match self.role.check_admin(&env.authorized, admin) {
            Err(e) => return Err(abort_of(e)),
            Ok(_) => {},
        }
        let now = env.sequence;
        if expires_at != 0 && expires_at <= now {
            return Err(Abort::Error(Error::InvalidExpiry));
        }
        let jurisdiction = match normalize_jurisdiction(jurisdiction) {
            None => return Err(Abort::Error(Error::InvalidJurisdiction)),
            Some(code) => code,
        };
        let known = self.records.has(address);
        let record = KycRecord {
            address,
            status: ComplianceStatus::Approved,
            jurisdiction,
            verified_at: now,
            expires_at,
        };
        self.records.set(address, record);
        if !known {
            self.append_to_allowlist(address);
        }
        env.bump();
        env.publish(Event::Approved { address, jurisdiction, expires_at });
        proof {
            if old(self)@.wf() {
                law_approve_keeps_wf(old(self)@, record);
            }
        }
        Ok(())
    }

    /// Suspends an address: its record stays, but it is not allowed until it
    /// is approved again. Admin only.
    pub fn suspend(&mut self, env: &mut Call, admin: Address, address: Address) -> (r: Result<
        (),
        Abort,
    >)
        ensures
            old(self)@.wf() ==> final(self)@.wf(),
            match r {
                Ok(_) => {
                    &&& record_refusal(old(self)@, old(env).authorized@, admin, address) is None
                    &&& final(self)@ == old(self)@.suspended(address)
                    &&& final(env).leaves(
                        *old(env),
                        seq![Event::Suspend { address }],
                        seq![Extension::Instance],
                    )
                },
                Err(a) => {
                    &&& record_refusal(old(self)@, old(env).authorized@, admin, address) == Some(a)
                    &&& final(self)@ == old(self)@
                    &&& *final(env) == *old(env)
                },
            },
    {
        match self.role.check_admin(&env.authorized, admin) {
            Err(e) => return Err(abort_of(e)),
            Ok(_) => {},
        }
        let mut record = match self.load_record(address) {
            Err(e) => return Err(Abort::Error(e)),
            Ok(record) => record,
        };
        record.status = ComplianceStatus::Suspended;
        self.records.set(address, record);
        env.bump();
        env.publish(Event::Suspend { address });
        proof {
            if old(self)@.wf() {
                law_suspend_keeps_wf(old(self)@, address);
            }
        }
        Ok(())
    }

    /// Removes an address: its record and its place on the allowlist. Admin
    /// only.
    pub fn remove(&mut self, env: &mut Call, admin: Address, address: Address) -> (r: Result<
        (),
        Abort,
    >)
        ensures
            old(self)@.wf() ==> final(self)@.wf(),
            match r {
                Ok(_) => {
                    &&& record_refusal(old(self)@, old(env).authorized@, admin, address) is None
                    &&& final(self)@ == old(self)@.removed(address)
                    &&& final(env).leaves(
                        *old(env),
                        seq![Event::Removed { address }],
                        seq![Extension::Instance],
                    )
                },
                Err(a) => {
                    &&& record_refusal(old(self)@, old(env).authorized@, admin, address) == Some(a)
                    &&& final(self)@ == old(self)@
                    &&& *final(env) == *old(env)
                },
            },
    {
        match self.role.check_admin(&env.authorized, admin) {
            Err(e) => return Err(abort_of(e)),
            Ok(_) => {},
        }
        if !self.records.has(address) {
            return Err(Abort::Error(Error::RecordNotFound));
        }
        self.records.remove(address);
        self.remove_from_allowlist(address);
        env.bump();
        env.publish(Event::Removed { address });
        proof {
            if old(self)@.wf() {
                law_remove_keeps_wf(old(self)@, address);
            }
        }
        Ok(())
    }

    /// What the asset token asks on every transfer and mint: whether
    /// an address is approved, its approval has not run out, and its
    /// jurisdiction is not blocked.
    pub fn is_allowed(&self, env: &mut Call, address: Address) -> (r: bool)
        ensures
            r == allowed(self@, old(env).sequence, address),
            final(env).leaves(
                *old(env),
                query_events(self@, old(env).sequence, address),
                seq![],
            ),
    {
        assert(env.events@ =~= old(env).events@ + Seq::<Event>::empty());
        assert(env.extended@ =~= old(env).extended@ + Seq::<Extension<()>>::empty());
        let record = match self.get_record(address) {
            Some(record) => record,
            None => return false,
        };
        if record.status != ComplianceStatus::Approved {
            return false;
        }
        if record.expires_at != 0 && env.sequence >= record.expires_at {
            env.publish(Event::Expired { address, expires_at: record.expires_at });
            return false;
        }
        !self.is_code_blocked(record.jurisdiction)
    }

    /// The record of an address, if any.
    pub fn get_record(&self, address: Address) -> (r: Option<KycRecord>)
        ensures
            r == if self@.records.contains_key(address) {
                Some(self@.records[address])
            } else {
                None::<KycRecord>
            },
    {
        match self.records.get(address) {
            Some(record) => Some(*record),
            None => None,
        }
    }

    /// The approval state of an address; `None` if it has no record. An
    /// approved address need not be allowed: expiry and blocked jurisdictions
    /// do not change the state on record. Nothing sets `Pending` or `Rejected`.
    pub fn status_of(&self, address: Address) -> (r: Option<ComplianceStatus>)
        ensures
            r == if self@.records.contains_key(address) {
                Some(self@.records[address].status)
            } else {
                None::<ComplianceStatus>
            },
    {
        match self.get_record(address) {
            Some(record) => Some(record.status),
            None => None,
        }
    }

    /// Every address on the allowlist.
    pub fn get_allowlist(&self) -> (r: Vec<Address>)
        ensures
            r@ == self@.allowlist(),
    {
        let mut all: Vec<Address> = Vec::new();
        let mut next: u64 = 0;
        while next <= self.page as u64
            invariant
                next <= self.page + 1,
                all@ == listing(self@.pages, next as nat),
            decreases self.page + 1 - next,
        {
            let p: u32 = next as u32;
            if let Some(page) = self.pages.get(p) {
                let ghost before = all@;
                let mut i: usize = 0;
                while i < page.len()
                    invariant
                        i <= page@.len(),
                        all@ == before + page@.take(i as int),
                    decreases page@.len() - i,
                {
                    all.push(page[i]);
                    assert(before + page@.take(i + 1) =~= (before + page@.take(i as int)).push(
                        page@[i as int],
                    ));
                    i += 1;
                }
                assert(page@.take(i as int) =~= page@);
            }
            assert(all@ =~= listing(self@.pages, next as nat + 1));
            next += 1;
        }
        all
    }

    /// Blocks a jurisdiction: no address of it is allowed. Admin only.
    pub fn block_jurisdiction(&mut self, env: &mut Call, admin: Address, jurisdiction: &Vec<u8>) -> (r:
        Result<(), Abort>)
        ensures
            old(self)@.wf() ==> final(self)@.wf(),
            ({
                let refusal = jurisdiction_refusal(
                    old(self)@,
                    old(env).authorized@,
                    admin,
                    jurisdiction@,
                );
                match r {
                    Ok(_) => {
                        let code = country_named(jurisdiction@)->0;
                        &&& refusal is None
                        &&& final(self)@ == old(self)@.blocking(code)
                        &&& final(env).leaves(
                            *old(env),
                            seq![Event::BlockJur { jurisdiction: code }],
                            seq![Extension::Instance],
                        )
                    },
                    Err(a) => {
                        &&& refusal == Some(a)
                        &&& final(self)@ == old(self)@
                        &&& *final(env) == *old(env)
                    },
                }
            }),
    {
        match self.role.check_admin(&env.authorized, admin) {
            Err(e) => return Err(abort_of(e)),
            Ok(_) => {},
        }
        let code = match normalize_jurisdiction(jurisdiction) {
            None => return Err(Abort::Error(Error::InvalidJurisdiction)),
            Some(code) => code,
        };
        self.blocked.set(code, true);
        env.bump();
        env.publish(Event::BlockJur { jurisdiction: code });
        proof {
            if old(self)@.wf() {
                law_block_keeps_wf(old(self)@, code);
            }
        }
        Ok(())
    }

    /// Unblocks a jurisdiction. Admin only.
    pub fn unblock_jurisdiction(
        &mut self,
        env: &mut Call,
        admin: Address,
        jurisdiction: &Vec<u8>,
    ) -> (r: Result<(), Abort>)
        ensures
            old(self)@.wf() ==> final(self)@.wf(),
            ({
                let refusal = jurisdiction_refusal(
                    old(self)@,
                    old(env).authorized@,
                    admin,
                    jurisdiction@,
                );
                match r {
                    Ok(_) => {
                        let code = country_named(jurisdiction@)->0;
                        &&& refusal is None
                        &&& final(self)@ == old(self)@.unblocking(code)
                        &&& final(env).leaves(
                            *old(env),
                            seq![Event::UnblkJur { jurisdiction: code }],
                            seq![Extension::Instance],
                        )
                    },
                    Err(a) => {
                        &&& refusal == Some(a)
                        &&& final(self)@ == old(self)@
                        &&& *final(env) == *old(env)
                    },
                }
            }),
    {
        match self.role.check_admin(&env.authorized, admin) {
            Err(e) => return Err(abort_of(e)),
            Ok(_) => {},
        }
        let code = match normalize_jurisdiction(jurisdiction) {
            None => return Err(Abort::Error(Error::InvalidJurisdiction)),
            Some(code) => code,
        };
        self.blocked.remove(code);
        env.bump();
        env.publish(Event::UnblkJur { jurisdiction: code });
        proof {
            if old(self)@.wf() {
                law_block_keeps_wf(old(self)@, code);
            }
        }
        Ok(())
    }

    /// Whether a jurisdiction is blocked.
    pub fn is_jurisdiction_blocked(&self, jurisdiction: &Vec<u8>) -> (r: Result<bool, Abort>)
        ensures
            match country_named(jurisdiction@) {
                Some(code) => r == Ok::<bool, Abort>(is_blocked(self@, code)),
                None => r == Err::<bool, Abort>(Abort::Error(Error::InvalidJurisdiction)),
            },
    {
        match normalize_jurisdiction(jurisdiction) {
            Some(code) => Ok(self.is_code_blocked(code)),
            None => Err(Abort::Error(Error::InvalidJurisdiction)),
        }
    }

    /// Whether the jurisdiction with the given code is blocked.
    fn is_code_blocked(&self, code: CountryCode) -> (r: bool)
        ensures
            r == is_blocked(self@, code),
    {
        match self.blocked.get(code) {
            Some(blocked) => *blocked,
            None => false,
        }
    }

    /// The record of an address, which must have one.
    fn load_record(&self, address: Address) -> (r: Result<KycRecord, Error>)
        ensures
            match r {
                Ok(record) => self@.records.contains_key(address) && record
                    == self@.records[address],
                Err(e) => !self@.records.contains_key(address) && e == Error::RecordNotFound,
            },
    {
        match self.get_record(address) {
            Some(record) => Ok(record),
            None => Err(Error::RecordNotFound),
        }
    }

    /// Appends an address to the last page of the allowlist, or to a new page
    /// once the last one has taken its full number.
    fn append_to_allowlist(&mut self, address: Address)
        requires
            old(self)@.page_is_full() ==> old(self)@.page < u32::MAX,
        ensures
            final(self)@ == old(self)@.appended(address),
    {
        let mut page_idx: u32 = self.page;
        let mut page_len: u32 = self.page_len;
        if page_len >= ALLOWLIST_PAGE_SIZE {
            page_idx += 1;
            page_len = 0;
        }
        let mut page = page_list(&self.pages, page_idx);
        page.push(address);
        proof {
            lemma_page_views_insert(self.pages@, page_idx, page);
        }
        self.pages.set(page_idx, page);
        self.page_of.set(address, page_idx);
        page_len += 1;
        self.page = page_idx;
        self.page_len = page_len;
        assert(self@ =~= old(self)@.appended(address));
    }

    /// Strikes an address off the page on which it is. The page keeps the gap:
    /// repacking would touch every address that moves.
    fn remove_from_allowlist(&mut self, address: Address)
        ensures
            final(self)@ == old(self)@.struck(address),
    {
        let page_idx: u32 = match self.page_of.get(address) {
            None => return,
            Some(page_idx) => *page_idx,
        };
        let page = page_list(&self.pages, page_idx);
        let mut next: Vec<Address> = Vec::new();
        let mut i: usize = 0;
        assert(next@ =~= without(page@.take(0), address));
        while i < page.len()
            invariant
                i <= page@.len(),
                next@ == without(page@.take(i as int), address),
            decreases page@.len() - i,
        {
            proof {
                assert(page@.take(i + 1).drop_last() =~= page@.take(i as int));
            }
            if page[i] != address {
                next.push(page[i]);
            }
            i += 1;
        }
        assert(page@.take(i as int) =~= page@);
        proof {
            lemma_page_views_insert(self.pages@, page_idx, next);
        }
        self.pages.set(page_idx, next);
        self.page_of.remove(address);
        assert(self@ =~= old(self)@.struck(address));
    }

    /// Removes every record on the allowlist that has run out, and with it the
    /// address from the list. Admin only.
    pub fn prune_expired(&mut self, env: &mut Call, admin: Address) -> (r: Result<(), Abort>)
        ensures
            old(self)@.wf() ==> final(self)@.wf(),
            match r {
                Ok(_) => {
                    &&& admin_refusal(old(self)@.role, old(env).authorized@, admin) is None
                    &&& final(self)@ == old(self)@.pruned(old(env).sequence)
                    &&& final(env).leaves(
                        *old(env),
                        expiries(
                            old(self)@.allowlist(),
                            old(self)@.records,
                            old(env).sequence,
                        ),
                        seq![Extension::Instance],
                    )
                },
                Err(a) => {
                    &&& admin_refusal(old(self)@.role, old(env).authorized@, admin) matches Some(e)
                        && a == role_abort(e)
                    &&& final(self)@ == old(self)@
                    &&& *final(env) == *old(env)
                },
            },
    {
        match self.role.check_admin(&env.authorized, admin) {
            Err(e) => return Err(abort_of(e)),
            Ok(_) => {},
        }
        let ghost before = self@;
        let ghost now = env.sequence;
        let current_page: u32 = self.page;
        let mut next: u64 = 0;
        proof {
            let none = dropped(listing(before.pages, 0), before.records, now);
            assert(none =~= Set::<Address>::empty());
            assert(before.records.remove_keys(none) =~= before.records);
            assert(before.page_of.remove_keys(none) =~= before.page_of);
            assert(kept_pages(before.pages, 0, before.records, now) =~= before.pages);
            assert(env.events@ =~= old(env).events@ + expiries(
                listing(before.pages, 0),
                before.records,
                now,
            ));
            assert(env.extended@ =~= old(env).extended@ + Seq::<Extension<()>>::empty());
        }
        while next <= current_page as u64
            invariant
                next <= current_page + 1,
                current_page == before.page,
                now == env.sequence,
                self@.role == before.role,
                self@.page == before.page,
                self@.page_len == before.page_len,
                self@.blocked == before.blocked,
                self@.records == before.records.remove_keys(
                    dropped(listing(before.pages, next as nat), before.records, now),
                ),
                self@.page_of == before.page_of.remove_keys(
                    dropped(listing(before.pages, next as nat), before.records, now),
                ),
                self@.pages == kept_pages(before.pages, next as int, before.records, now),
                env.leaves(
                    *old(env),
                    expiries(listing(before.pages, next as nat), before.records, now),
                    seq![],
                ),
            decreases current_page + 1 - next,
        {
            let p: u32 = next as u32;
            let ghost done = listing(before.pages, next as nat);
            let ghost list = on_page(before.pages, p);
            let ghost mid = self@;
            self.prune_page(env, p);
            proof {
                lemma_prune_append(done, list, before.records, now);
                lemma_kept_frame(
                    list,
                    before.records,
                    dropped(done, before.records, now),
                    now,
                );
                assert(listing(before.pages, next as nat + 1) == done + list);
                assert(on_page(mid.pages, p) == list);
                assert(self@.page_of =~= before.page_of.remove_keys(
                    dropped(done + list, before.records, now),
                ));
                assert(self@.pages =~= kept_pages(
                    before.pages,
                    next as int + 1,
                    before.records,
                    now,
                ));
                assert(env.events@ =~= old(env).events@ + expiries(
                    done + list,
                    before.records,
                    now,
                ));
                assert(env.extended@ =~= old(env).extended@ + Seq::<Extension<()>>::empty());
            }
            next += 1;
        }
        env.bump();
        proof {
            assert(self@ =~= before.pruned(now));
            if before.wf() {
                law_prune_keeps_wf(before, now);
            }
            assert(env.events@ =~= old(env).events@ + expiries(
                before.allowlist(),
                before.records,
                now,
            ));
            assert(env.extended@ =~= old(env).extended@ + seq![Extension::<()>::Instance]);
        }
        Ok(())
    }

    /// Removes every record on one page of the allowlist that has run out.
    fn prune_page(&mut self, env: &mut Call, p: u32)
        ensures
            ({
                let s = old(self)@;
                let now = old(env).sequence;
                let gone = dropped(on_page(s.pages, p), s.records, now);
                &&& final(self)@ == (ComplianceView {
                    pages: if s.pages.contains_key(p) {
                        s.pages.insert(p, kept(s.pages[p], s.records, now))
                    } else {
                        s.pages
                    },
                    page_of: s.page_of.remove_keys(gone),
                    records: s.records.remove_keys(gone),
                    ..s
                })
                &&& final(env).leaves(
                    *old(env),
                    expiries(on_page(s.pages, p), s.records, now),
                    seq![],
                )
            }),
    {
        let page = page_list(&self.pages, p);
        let now = env.sequence;
        let ghost before = self@;
        let mut next: Vec<Address> = Vec::new();
        let mut changed = false;
        let mut i: usize = 0;
        proof {
            let none = page@.take(0);
            assert(dropped(none, before.records, now) =~= Set::<Address>::empty());
            assert(before.records.remove_keys(dropped(none, before.records, now))
                =~= before.records);
            assert(before.page_of.remove_keys(dropped(none, before.records, now))
                =~= before.page_of);
            assert(next@ =~= none);
            assert(env.events@ =~= old(env).events@ + expiries(none, before.records, now));
            assert(env.extended@ =~= old(env).extended@ + Seq::<Extension<()>>::empty());
        }
        while i < page.len()
            invariant
                i <= page@.len(),
                now == env.sequence,
                self@.role == before.role,
                self@.page == before.page,
                self@.page_len == before.page_len,
                self@.pages == before.pages,
                self@.blocked == before.blocked,
                self@.records == before.records.remove_keys(
                    dropped(page@.take(i as int), before.records, now),
                ),
                self@.page_of == before.page_of.remove_keys(
                    dropped(page@.take(i as int), before.records, now),
                ),
                next@ == kept(page@.take(i as int), before.records, now),
                !changed ==> next@ == page@.take(i as int),
                changed ==> i > 0,
                env.leaves(
                    *old(env),
                    expiries(page@.take(i as int), before.records, now),
                    seq![],
                ),
            decreases page@.len() - i,
        {
            let addr = page[i];
            let ghost front = page@.take(i as int);
            let ghost list = page@.take(i + 1);
            proof {
                assert(list.drop_last() =~= front);
                assert(list.last() == addr);
                assert(list =~= front.push(addr));
                assert forall|a: Address| list.contains(a) <==> front.contains(a) || a == addr by {
                    if front.contains(a) {
                        let k = choose|k: int| 0 <= k < front.len() && front[k] == a;
                        assert(list[k] == a);
                    }
                    assert(list[i as int] == addr);
                }
            }
            let keep = match self.get_record(addr) {
                Some(r) => {
                    if r.expires_at != 0 && now >= r.expires_at {
                        self.records.remove(addr);
                        self.page_of.remove(addr);
                        env.publish(Event::Expired { address: addr, expires_at: r.expires_at });
                        false
                    } else {
                        true
                    }
                },
                None => false,
            };
            if keep {
                next.push(addr);
            } else {
                changed = true;
            }
            proof {
                assert(self@.records =~= before.records.remove_keys(
                    dropped(list, before.records, now),
                ));
                assert(self@.page_of =~= before.page_of.remove_keys(
                    dropped(list, before.records, now),
                ));
                assert(env.events@ =~= old(env).events@ + expiries(list, before.records, now));
                assert(env.extended@ =~= old(env).extended@ + Seq::<Extension<()>>::empty());
            }
            i += 1;
        }
        assert(page@.take(i as int) =~= page@);
        if changed {
            proof {
                lemma_page_views_insert(self.pages@, p, next);
            }
            self.pages.set(p, next);
        }
        proof {
            if before.pages.contains_key(p) && !changed {
                assert(before.pages.insert(p, before.pages[p]) =~= before.pages);
            }
            let gone = dropped(on_page(before.pages, p), before.records, now);
            assert(self@ =~= (ComplianceView {
                pages: if before.pages.contains_key(p) {
                    before.pages.insert(p, kept(before.pages[p], before.records, now))
                } else {
                    before.pages
                },
                page_of: before.page_of.remove_keys(gone),
                records: before.records.remove_keys(gone),
                ..before
            }));
        }
    }

    /// The admin.
    pub fn get_admin(&self) -> (r: Result<Address, Abort>)
        ensures
            match r {
                Ok(admin) => self@.role.admin == Some(admin),
                Err(a) => self@.role.admin is None && a == Abort::Error(Error::NotInitialized),
            },
    {
        match self.role.admin {
            Some(admin) => Ok(admin),
            None => Err(Abort::Error(Error::NotInitialized)),
        }
    }

    /// Proposes a new admin. The role moves only once the successor accepts.
    pub fn propose_admin(&mut self, env: &mut Call, admin: Address, new_admin: Address) -> (r: Result<
        (),
        Abort,
    >)
        ensures
            old(self)@.wf() ==> final(self)@.wf(),
            match r {
                Ok(_) => {
                    &&& admin_refusal(old(self)@.role, old(env).authorized@, admin) is None
                    &&& final(self)@ == old(self)@.with_role(old(self)@.role.proposing(new_admin))
                    &&& final(env).leaves(
                        *old(env),
                        seq![Event::Proposed { admin, new_admin }],
                        seq![Extension::Instance],
                    )
                },
                Err(a) => {
                    &&& admin_refusal(old(self)@.role, old(env).authorized@, admin) matches Some(e)
                        && a == role_abort(e)
                    &&& final(self)@ == old(self)@
                    &&& *final(env) == *old(env)
                },
            },
    {
        match self.role.propose(&env.authorized, admin, new_admin) {
            Err(e) => Err(abort_of(e)),
            Ok(_) => {
                env.bump();
                env.publish(Event::Proposed { admin, new_admin });
                proof {
                    if old(self)@.wf() {
                        law_role_change_keeps_wf(old(self)@, self.role);
                    }
                }
                Ok(())
            },
        }
    }

    /// Withdraws the pending admin proposal. Admin only.
    pub fn cancel_admin_proposal(&mut self, env: &mut Call, admin: Address) -> (r: Result<
        (),
        Abort,
    >)
        ensures
            old(self)@.wf() ==> final(self)@.wf(),
            match r {
                Ok(_) => {
                    &&& cancel_refusal(old(self)@.role, old(env).authorized@, admin) is None
                    &&& final(self)@ == old(self)@.with_role(old(self)@.role.without_proposal())
                    &&& final(env).leaves(
                        *old(env),
                        seq![Event::Cancelled { admin }],
                        seq![Extension::Instance],
                    )
                },
                Err(a) => {
                    &&& cancel_refusal(old(self)@.role, old(env).authorized@, admin) matches Some(e)
                        && a == role_abort(e)
                    &&& final(self)@ == old(self)@
                    &&& *final(env) == *old(env)
                },
            },
    {
        match self.role.cancel(&env.authorized, admin) {
            Err(e) => Err(abort_of(e)),
            Ok(_) => {
                env.bump();
                env.publish(Event::Cancelled { admin });
                proof {
                    if old(self)@.wf() {
                        law_role_change_keeps_wf(old(self)@, self.role);
                    }
                }
                Ok(())
            },
        }
    }

    /// Accepts the pending admin proposal, which completes the handover. Only
    /// the proposed successor can.
    pub fn accept_admin(&mut self, env: &mut Call, new_admin: Address) -> (r: Result<(), Abort>)
        ensures
            old(self)@.wf() ==> final(self)@.wf(),
            match r {
                Ok(_) => {
                    &&& accept_refusal(old(self)@.role, old(env).authorized@, new_admin) is None
                    &&& final(self)@ == old(self)@.with_role(
                        old(self)@.role.held_by(new_admin).without_proposal(),
                    )
                    &&& final(env).leaves(
                        *old(env),
                        seq![Event::SetAdmin { old_admin: old(self)@.role.admin->0, new_admin }],
                        seq![Extension::Instance],
                    )
                },
                Err(a) => {
                    &&& accept_refusal(
                        old(self)@.role,
                        old(env).authorized@,
                        new_admin,
                    ) matches Some(e) && a == role_abort(e)
                    &&& final(self)@ == old(self)@
                    &&& *final(env) == *old(env)
                },
            },
    {
        match self.role.accept(&env.authorized, new_admin) {
            Err(e) => Err(abort_of(e)),
            Ok(old_admin) => {
                env.bump();
                env.publish(Event::SetAdmin { old_admin, new_admin });
                proof {
                    if old(self)@.wf() {
                        law_role_change_keeps_wf(old(self)@, self.role);
                    }
                }
                Ok(())
            },
        }
    }

    /// The address proposed as the next admin, if any.
    pub fn get_pending_admin(&self) -> (r: Option<Address>)
        ensures
            r == self@.role.pending,
    {
        self.role.pending
    }
}

} // verus!
