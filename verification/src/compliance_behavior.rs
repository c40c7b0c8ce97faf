//! What each call of the compliance contract is for, told by its inputs and
//! results.
use vstd::prelude::*;

use crate::address::Address;
use crate::compliance::{
    allowed, approve_refusal, country_named, dropped, error_code, expired, expiries, is_blocked,
    jurisdiction_refusal, kept, kept_pages, listing, on_page, query_events, record_refusal,
    role_abort, without, without_spaces, Abort, ComplianceContract, ComplianceStatus,
    ComplianceView, CountryCode, Error, Event, KycRecord,
};
use crate::roles::{AdminRole, RoleRefusal};

verus! {

// ---- what is accepted ----
/// The admin can approve every address that a country code can be given for, for
/// ever or until a ledger yet to come; otherwise the first of what is wrong is
/// told.
pub proof fn law_approval_accepted(
    s: ComplianceView,
    signed: Seq<Address>,
    now: u32,
    admin: Address,
    jurisdiction: Seq<u8>,
    expires_at: u32,
)
    ensures
        ({
            let refusal = approve_refusal(s, signed, now, admin, jurisdiction, expires_at);
            let may = s.role.admin == Some(admin) && signed.contains(admin);
            let ahead = expires_at == 0 || expires_at > now;
            &&& refusal is None <==> may && ahead && country_named(jurisdiction) is Some
            &&& s.role.admin is None ==> refusal == Some(Abort::Error(Error::NotInitialized))
            &&& s.role.admin is Some && !signed.contains(admin) ==> refusal == Some(
                Abort::Unsigned(admin),
            )
            &&& s.role.admin is Some && signed.contains(admin) && s.role.admin != Some(admin)
                ==> refusal == Some(Abort::Error(Error::Unauthorized))
            &&& may && !ahead ==> refusal == Some(Abort::Error(Error::InvalidExpiry))
            &&& may && ahead && country_named(jurisdiction) is None ==> refusal == Some(
                Abort::Error(Error::InvalidJurisdiction),
            )
        }),
{
}

/// The admin can suspend and remove every address that has a record, whatever
/// the record says.
pub proof fn law_record_change_accepted(
    s: ComplianceView,
    signed: Seq<Address>,
    admin: Address,
    address: Address,
)
    ensures
        ({
            let refusal = record_refusal(s, signed, admin, address);
            let may = s.role.admin == Some(admin) && signed.contains(admin);
            &&& refusal is None <==> may && s.records.contains_key(address)
            &&& s.role.admin is None ==> refusal == Some(Abort::Error(Error::NotInitialized))
            &&& s.role.admin is Some && !signed.contains(admin) ==> refusal == Some(
                Abort::Unsigned(admin),
            )
            &&& s.role.admin is Some && signed.contains(admin) && s.role.admin != Some(admin)
                ==> refusal == Some(Abort::Error(Error::Unauthorized))
            &&& may && !s.records.contains_key(address) ==> refusal == Some(
                Abort::Error(Error::RecordNotFound),
            )
        }),
{
}

/// The admin can block and unblock every jurisdiction, blocked or not.
pub proof fn law_jurisdiction_change_accepted(
    s: ComplianceView,
    signed: Seq<Address>,
    admin: Address,
    jurisdiction: Seq<u8>,
)
    ensures
        ({
            let refusal = jurisdiction_refusal(s, signed, admin, jurisdiction);
            let may = s.role.admin == Some(admin) && signed.contains(admin);
            &&& refusal is None <==> may && country_named(jurisdiction) is Some
            &&& s.role.admin is None ==> refusal == Some(Abort::Error(Error::NotInitialized))
            &&& s.role.admin is Some && !signed.contains(admin) ==> refusal == Some(
                Abort::Unsigned(admin),
            )
            &&& s.role.admin is Some && signed.contains(admin) && s.role.admin != Some(admin)
                ==> refusal == Some(Abort::Error(Error::Unauthorized))
            &&& may && country_named(jurisdiction) is None ==> refusal == Some(
                Abort::Error(Error::InvalidJurisdiction),
            )
        }),
{
}

/// What is wrong with the role is told to callers under the same name.
pub proof fn law_compliance_role_errors(who: Address)
    ensures
        role_abort(RoleRefusal::AlreadyInitialized) == Abort::Error(Error::AlreadyInitialized),
        role_abort(RoleRefusal::NotInitialized) == Abort::Error(Error::NotInitialized),
        role_abort(RoleRefusal::Unsigned(who)) == Abort::Unsigned(who),
        role_abort(RoleRefusal::Unauthorized) == Abort::Error(Error::Unauthorized),
        role_abort(RoleRefusal::NoPendingAdmin) == Abort::Error(Error::NoPendingAdmin),
{
}

// ---- jurisdictions ----
/// Taking the spaces out leaves every other byte, in order.
proof fn lemma_without_spaces_is_filter(raw: Seq<u8>)
    ensures
        without_spaces(raw) == raw.filter(|b: u8| b != 0x20),
    decreases raw.len(),
{
    reveal(Seq::filter);
    if raw.len() > 0 {
        lemma_without_spaces_is_filter(raw.drop_last());
    }
}

/// Every text of two letters, spaces aside, names the country whose code is
/// those letters in upper case; no other text names one.
pub proof fn law_two_letters_name_a_country(raw: Seq<u8>)
    ensures
        ({
            let text = raw.filter(|b: u8| b != 0x20);
            let letters = text.len() == 2 && (0x41 <= text[0] <= 0x5a || 0x61 <= text[0] <= 0x7a)
                && (0x41 <= text[1] <= 0x5a || 0x61 <= text[1] <= 0x7a);
            &&& country_named(raw) is Some <==> letters
            &&& country_named(raw) matches Some(code) ==> {
                &&& 0x41 <= code.first <= 0x5a
                &&& 0x41 <= code.second <= 0x5a
                &&& text[0] == code.first || text[0] == code.first + 0x20
                &&& text[1] == code.second || text[1] == code.second + 0x20
            }
        }),
{
    lemma_without_spaces_is_filter(raw);
}

/// A new contract blocks no jurisdiction.
pub proof fn law_nothing_is_blocked_at_first(code: CountryCode)
    ensures
        !is_blocked(ComplianceView::blank(), code),
{
}

/// After a block the jurisdiction is blocked and after an unblock it is not,
/// whatever was before. Every other jurisdiction stays as it was.
pub proof fn law_blocks_and_unblocks_decide(s: ComplianceView, code: CountryCode, other: CountryCode)
    ensures
        is_blocked(s.blocking(code), code),
        !is_blocked(s.unblocking(code), code),
        other != code ==> is_blocked(s.blocking(code), other) == is_blocked(s, other),
        other != code ==> is_blocked(s.unblocking(code), other) == is_blocked(s, other),
{
}

/// Nothing but a block or an unblock changes which jurisdictions are blocked.
pub proof fn law_only_blocks_block(
    s: ComplianceView,
    record: KycRecord,
    address: Address,
    now: u32,
    role: AdminRole,
    code: CountryCode,
)
    ensures
        is_blocked(s.approved(record), code) == is_blocked(s, code),
        is_blocked(s.suspended(address), code) == is_blocked(s, code),
        is_blocked(s.removed(address), code) == is_blocked(s, code),
        is_blocked(s.pruned(now), code) == is_blocked(s, code),
        is_blocked(s.with_role(role), code) == is_blocked(s, code),
{
}

/// A block or an unblock changes no record, no page and no role.
pub proof fn law_blocks_change_nothing_else(s: ComplianceView, code: CountryCode)
    ensures
        s.blocking(code).role == s.role,
        s.blocking(code).page == s.page,
        s.blocking(code).page_len == s.page_len,
        s.blocking(code).pages == s.pages,
        s.blocking(code).page_of == s.page_of,
        s.blocking(code).records == s.records,
        s.unblocking(code).role == s.role,
        s.unblocking(code).page == s.page,
        s.unblocking(code).page_len == s.page_len,
        s.unblocking(code).pages == s.pages,
        s.unblocking(code).page_of == s.page_of,
        s.unblocking(code).records == s.records,
{
}

// ---- who is allowed ----
/// An address is allowed exactly while it has an approved record of a
/// jurisdiction that is not blocked, for ever or until the ledger at which the
/// record expires.
pub proof fn law_who_is_allowed(s: ComplianceView, now: u32, who: Address)
    ensures
        !s.records.contains_key(who) ==> !allowed(s, now, who),
        s.records.contains_key(who) ==> {
            let record = s.records[who];
            &&& record.status != ComplianceStatus::Approved ==> !allowed(s, now, who)
            &&& is_blocked(s, record.jurisdiction) ==> !allowed(s, now, who)
            &&& record.expires_at != 0 && record.expires_at <= now ==> !allowed(s, now, who)
            &&& record.status == ComplianceStatus::Approved && !is_blocked(s, record.jurisdiction)
                && (record.expires_at == 0 || now < record.expires_at) ==> allowed(s, now, who)
        },
        !allowed(ComplianceView::blank(), now, who),
{
}

/// An approval that never expires never runs out. Any other is good up to the
/// ledger before the one it expires at, and not from that one on.
pub proof fn law_when_approvals_run_out(record: KycRecord, now: u32)
    ensures
        record.expires_at == 0 ==> !expired(record, now),
        record.expires_at != 0 && now < record.expires_at ==> !expired(record, now),
        record.expires_at != 0 && now >= record.expires_at ==> expired(record, now),
{
}

/// Asking publishes that an approval has run out, once, where it has; it
/// publishes nothing else.
pub proof fn law_asking_tells_of_expiry(s: ComplianceView, now: u32, who: Address)
    ensures
        ({
            let ran_out = s.records.contains_key(who) && s.records[who].status
                == ComplianceStatus::Approved && s.records[who].expires_at != 0
                && s.records[who].expires_at <= now;
            &&& !ran_out ==> query_events(s, now, who).len() == 0
            &&& ran_out ==> query_events(s, now, who).len() == 1 && query_events(s, now, who)[0]
                == (Event::Expired { address: who, expires_at: s.records[who].expires_at })
        }),
{
}

// ---- what the calls change ----
/// A contract starts with no admin, no record and an empty allowlist. A change
/// of role changes the role alone.
pub proof fn law_contract_starts_empty(s: ComplianceView, role: AdminRole, who: Address, p: u32)
    ensures
        ComplianceView::blank().role.admin is None,
        ComplianceView::blank().role.pending is None,
        ComplianceView::blank().page == 0,
        ComplianceView::blank().page_len == 0,
        ComplianceView::blank().allowlist().len() == 0,
        !ComplianceView::blank().pages.contains_key(p),
        !ComplianceView::blank().page_of.contains_key(who),
        !ComplianceView::blank().records.contains_key(who),
        s.with_role(role).role == role,
        s.with_role(role).page == s.page,
        s.with_role(role).page_len == s.page_len,
        s.with_role(role).pages == s.pages,
        s.with_role(role).page_of == s.page_of,
        s.with_role(role).records == s.records,
        s.with_role(role).blocked == s.blocked,
{
    reveal_with_fuel(listing, 2);
}

/// An approval files the record as it was given and touches no other record. A
/// known address stays where it is on the allowlist. A new one goes at the end
/// of the last page, or on a page of its own after 200 of them.
pub proof fn law_approval_files_one_record(
    s: ComplianceView,
    record: KycRecord,
    other: Address,
    p: u32,
)
    requires
        s.page < u32::MAX,
    ensures
        ({
            let t = s.approved(record);
            let who = record.address;
            &&& t.records.contains_key(who)
            &&& t.records[who] == record
            &&& other != who ==> (t.records.contains_key(other) <==> s.records.contains_key(other))
                && t.records[other] == s.records[other]
            &&& other != who ==> (t.page_of.contains_key(other) <==> s.page_of.contains_key(other))
                && t.page_of[other] == s.page_of[other]
            &&& t.role == s.role
            &&& t.blocked == s.blocked
            &&& s.records.contains_key(who) ==> t.page == s.page && t.page_len == s.page_len
                && t.pages == s.pages && t.page_of == s.page_of
            &&& !s.records.contains_key(who) && s.page_len < 200 ==> t.page == s.page && t.page_len
                == s.page_len + 1
            &&& !s.records.contains_key(who) && s.page_len >= 200 ==> t.page == s.page + 1
                && t.page_len == 1
            &&& !s.records.contains_key(who) ==> t.page_of.contains_key(who) && t.page_of[who]
                == t.page && on_page(t.pages, t.page) == on_page(s.pages, t.page).push(who)
            &&& p != t.page ==> on_page(t.pages, p) == on_page(s.pages, p)
        }),
{
}

/// A suspension changes the state on one record and nothing else.
pub proof fn law_suspension_changes_one_state(s: ComplianceView, who: Address, other: Address)
    ensures
        ({
            let t = s.suspended(who);
            &&& t.records.contains_key(who)
            &&& t.records[who].status == ComplianceStatus::Suspended
            &&& t.records[who].address == s.records[who].address
            &&& t.records[who].jurisdiction == s.records[who].jurisdiction
            &&& t.records[who].verified_at == s.records[who].verified_at
            &&& t.records[who].expires_at == s.records[who].expires_at
            &&& other != who ==> (t.records.contains_key(other) <==> s.records.contains_key(other))
                && t.records[other] == s.records[other]
            &&& t.role == s.role
            &&& t.page == s.page
            &&& t.page_len == s.page_len
            &&& t.pages == s.pages
            &&& t.page_of == s.page_of
            &&& t.blocked == s.blocked
        }),
{
}

/// A removal takes away one record and one place on the allowlist, and nothing
/// else. The place is not given to anybody: the page counts stay.
pub proof fn law_removal_takes_one_record(
    s: ComplianceView,
    who: Address,
    other: Address,
    p: u32,
)
    ensures
        ({
            let t = s.removed(who);
            &&& !t.records.contains_key(who)
            &&& !t.page_of.contains_key(who)
            &&& other != who ==> (t.records.contains_key(other) <==> s.records.contains_key(other))
                && t.records[other] == s.records[other]
            &&& other != who ==> (t.page_of.contains_key(other) <==> s.page_of.contains_key(other))
                && t.page_of[other] == s.page_of[other]
            &&& t.role == s.role
            &&& t.page == s.page
            &&& t.page_len == s.page_len
            &&& t.blocked == s.blocked
            &&& s.page_of.contains_key(who) && s.page_of[who] == p ==> on_page(t.pages, p)
                == without(on_page(s.pages, p), who)
            &&& !(s.page_of.contains_key(who) && s.page_of[who] == p) ==> on_page(t.pages, p)
                == on_page(s.pages, p)
        }),
{
}

/// Pruning takes away the record and the place of every address on the
/// allowlist whose record has run out, and of no other. It leaves everything
/// else as it was.
pub proof fn law_prune_takes_what_ran_out(s: ComplianceView, now: u32, who: Address, p: u32)
    ensures
        ({
            let t = s.pruned(now);
            let gone = s.allowlist().contains(who) && s.records.contains_key(who)
                && s.records[who].expires_at != 0 && s.records[who].expires_at <= now;
            &&& t.records.contains_key(who) <==> s.records.contains_key(who) && !gone
            &&& t.page_of.contains_key(who) <==> s.page_of.contains_key(who) && !gone
            &&& t.records.contains_key(who) ==> t.records[who] == s.records[who]
            &&& t.page_of.contains_key(who) ==> t.page_of[who] == s.page_of[who]
            &&& t.role == s.role
            &&& t.page == s.page
            &&& t.page_len == s.page_len
            &&& t.blocked == s.blocked
            &&& t.pages.contains_key(p) <==> s.pages.contains_key(p)
            &&& s.pages.contains_key(p) && p > s.page ==> t.pages[p] == s.pages[p]
            &&& s.pages.contains_key(p) && p <= s.page ==> t.pages[p] == kept(
                s.pages[p],
                s.records,
                now,
            )
        }),
{
    let gone = dropped(s.allowlist(), s.records, now);
    assert(s.pruned(now).records.contains_key(who) <==> s.records.contains_key(who)
        && !gone.contains(who));
}

// ---- lists ----
/// Striking an address off a list, keeping those whose record is good and
/// telling of those whose record has run out go over the list from its start:
/// one address more at the end adds itself, or nothing.
pub proof fn law_lists_are_gone_over_in_order(
    list: Seq<Address>,
    records: Map<Address, KycRecord>,
    now: u32,
    last: Address,
    who: Address,
)
    ensures
        ({
            let longer = list.push(last);
            let known = records.contains_key(last);
            let good = known && (records[last].expires_at == 0 || records[last].expires_at > now);
            &&& without(Seq::empty(), who).len() == 0
            &&& last == who ==> without(longer, who) == without(list, who)
            &&& last != who ==> without(longer, who) == without(list, who).push(last)
            &&& kept(Seq::empty(), records, now).len() == 0
            &&& good ==> kept(longer, records, now) == kept(list, records, now).push(last)
            &&& !good ==> kept(longer, records, now) == kept(list, records, now)
            &&& expiries(Seq::empty(), records, now).len() == 0
            &&& known && !good && !list.contains(last) ==> expiries(longer, records, now)
                == expiries(list, records, now).push(
                Event::Expired { address: last, expires_at: records[last].expires_at },
            )
            &&& !known || good || list.contains(last) ==> expiries(longer, records, now)
                == expiries(list, records, now)
        }),
{
    assert(list.push(last).drop_last() =~= list);
}

/// Whoever is on a list and is known with a record that has run out is dropped,
/// and nobody else is.
pub proof fn law_who_is_dropped(
    list: Seq<Address>,
    records: Map<Address, KycRecord>,
    now: u32,
    who: Address,
)
    ensures
        dropped(list, records, now).contains(who) <==> list.contains(who) && records.contains_key(
            who,
        ) && records[who].expires_at != 0 && records[who].expires_at <= now,
{
}

/// The allowlist is its pages, one after the other; a page that is absent is
/// empty.
pub proof fn law_pages_follow_each_other(pages: Map<u32, Seq<Address>>, p: u32, s: ComplianceView)
    ensures
        listing(pages, 0).len() == 0,
        listing(pages, p as nat + 1) == listing(pages, p as nat) + on_page(pages, p),
        pages.contains_key(p) ==> on_page(pages, p) == pages[p],
        !pages.contains_key(p) ==> on_page(pages, p).len() == 0,
        s.allowlist() == listing(s.pages, s.page as nat) + on_page(s.pages, s.page),
{
}

/// Keeping what is good on the first pages changes those pages and no other.
pub proof fn law_pages_are_kept_in_place(
    pages: Map<u32, Seq<Address>>,
    n: int,
    records: Map<Address, KycRecord>,
    now: u32,
    p: u32,
)
    ensures
        kept_pages(pages, n, records, now).contains_key(p) <==> pages.contains_key(p),
        pages.contains_key(p) && p < n ==> kept_pages(pages, n, records, now)[p] == kept(
            pages[p],
            records,
            now,
        ),
        pages.contains_key(p) && p >= n ==> kept_pages(pages, n, records, now)[p] == pages[p],
{
}

/// What is said of a contract is what it stores, entry for entry.
pub proof fn law_contract_is_seen_whole(
    c: ComplianceContract,
    who: Address,
    p: u32,
    code: CountryCode,
)
    ensures
        c@.role == c.role,
        c@.page == c.page,
        c@.page_len == c.page_len,
        c@.pages.contains_key(p) <==> c.pages@.contains_key(p),
        c.pages@.contains_key(p) ==> c@.pages[p] == c.pages@[p]@,
        c@.page_of.contains_key(who) <==> c.page_of@.contains_key(who),
        c@.page_of[who] == c.page_of@[who],
        c@.records.contains_key(who) <==> c.records@.contains_key(who),
        c@.records[who] == c.records@[who],
        c@.blocked.contains_key(code) <==> c.blocked@.contains_key(code),
        c@.blocked[code] == c.blocked@[code],
{
}

/// Every error has a number of its own, which does not change.
pub proof fn law_compliance_error_numbers(a: Error, b: Error)
    ensures
        error_code(a) == error_code(b) ==> a == b,
        1 <= error_code(a) <= 7,
        error_code(Error::AlreadyInitialized) == 1,
        error_code(Error::NotInitialized) == 2,
        error_code(Error::RecordNotFound) == 3,
        error_code(Error::InvalidExpiry) == 4,
        error_code(Error::Unauthorized) == 5,
        error_code(Error::InvalidJurisdiction) == 6,
        error_code(Error::NoPendingAdmin) == 7,
{
}

} // verus!
