//! What the compliance contract promises across calls.
use vstd::prelude::*;

use crate::address::Address;
use crate::compliance::{
    allowed, approve_refusal, code_wf, country_named, current, dropped, expired, expiries,
    is_blocked, kept, kept_pages, lapsed, listing, on_page, query_events, record_refusal, record_wf,
    upper, without, without_spaces, ComplianceStatus, ComplianceView, CountryCode, Event, KycRecord,
    ALLOWLIST_PAGE_SIZE,
};
use crate::roles::AdminRole;
use crate::table::agree;

verus! {

/// Striking an address off a list leaves the others, in their order.
proof fn lemma_without(list: Seq<Address>, who: Address)
    ensures
        without(list, who).len() <= list.len(),
        forall|a: Address| #[trigger]
            without(list, who).contains(a) <==> list.contains(a) && a != who,
        list.no_duplicates() ==> without(list, who).no_duplicates(),
    decreases list.len(),
{
    if list.len() > 0 {
        let front = list.drop_last();
        let last = list.last();
        lemma_without(front, who);
        let rest = without(front, who);
        let all = without(list, who);
        assert forall|a: Address| #[trigger] all.contains(a) <==> list.contains(a) && a != who by {
            assert(rest.contains(a) <==> front.contains(a) && a != who);
            lemma_push_contains(front, last, a);
            lemma_push_contains(rest, last, a);
            assert(front.push(last) =~= list);
        }
        if list.no_duplicates() {
            lemma_push_distinct(front, last);
            assert(front.push(last) =~= list);
            assert(rest.contains(last) <==> front.contains(last) && last != who);
            lemma_push_distinct(rest, last);
        }
    }
}

/// What is on a list with one address more.
proof fn lemma_push_contains(list: Seq<Address>, last: Address, a: Address)
    ensures
        list.push(last).contains(a) <==> list.contains(a) || a == last,
{
    if list.contains(a) {
        let k = choose|k: int| 0 <= k < list.len() && list[k] == a;
        assert(list.push(last)[k] == a);
    }
    assert(list.push(last)[list.len() as int] == last);
}

/// When nothing is twice on a list with one address more.
proof fn lemma_push_distinct(list: Seq<Address>, last: Address)
    ensures
        list.push(last).no_duplicates() <==> list.no_duplicates() && !list.contains(last),
{
    let all = list.push(last);
    if all.no_duplicates() {
        assert forall|i: int, j: int| 0 <= i < list.len() && 0 <= j < list.len() && i != j implies
            list[i] != list[j] by {
            assert(all[i] == list[i] && all[j] == list[j]);
        }
        if list.contains(last) {
            let k = choose|k: int| 0 <= k < list.len() && list[k] == last;
            assert(all[k] == all[list.len() as int]);
        }
    }
    if list.no_duplicates() && !list.contains(last) {
        assert forall|i: int, j: int| 0 <= i < all.len() && 0 <= j < all.len() && i != j implies
            all[i] != all[j] by {
            if i < list.len() {
                assert(list.contains(list[i]));
            }
            if j < list.len() {
                assert(list.contains(list[j]));
            }
        }
    }
}

/// Keeping those whose record has not run out keeps them in their order.
proof fn lemma_kept(list: Seq<Address>, records: Map<Address, KycRecord>, now: u32)
    ensures
        kept(list, records, now).len() <= list.len(),
        forall|a: Address| #[trigger]
            kept(list, records, now).contains(a) <==> list.contains(a) && current(
                records,
                now,
                a,
            ),
        list.no_duplicates() ==> kept(list, records, now).no_duplicates(),
    decreases list.len(),
{
    if list.len() > 0 {
        let front = list.drop_last();
        let last = list.last();
        lemma_kept(front, records, now);
        let rest = kept(front, records, now);
        let all = kept(list, records, now);
        assert(front.push(last) =~= list);
        assert forall|a: Address| #[trigger] all.contains(a) <==> list.contains(a) && current(
            records,
            now,
            a,
        ) by {
            assert(rest.contains(a) <==> front.contains(a) && current(records, now, a));
            lemma_push_contains(front, last, a);
            lemma_push_contains(rest, last, a);
        }
        if list.no_duplicates() {
            lemma_push_distinct(front, last);
            assert(rest.contains(last) <==> front.contains(last) && current(records, now, last));
            lemma_push_distinct(rest, last);
        }
    }
}

/// The list of the first `n` pages has what is on one of them.
proof fn lemma_listing(pages: Map<u32, Seq<Address>>, n: nat, a: Address)
    requires
        n <= u32::MAX + 1,
    ensures
        listing(pages, n).contains(a) <==> exists|p: u32| p < n && #[trigger] on_page(
            pages,
            p,
        ).contains(a),
    decreases n,
{
    if n > 0 {
        let m = (n - 1) as nat;
        lemma_listing(pages, m, a);
        let front = listing(pages, m);
        let last = on_page(pages, m as u32);
        let all = listing(pages, n);
        if front.contains(a) {
            let k = choose|k: int| 0 <= k < front.len() && front[k] == a;
            assert(all[k] == a);
        }
        if last.contains(a) {
            let k = choose|k: int| 0 <= k < last.len() && last[k] == a;
            assert(all[front.len() + k] == a);
        }
        if all.contains(a) {
            let k = choose|k: int| 0 <= k < all.len() && all[k] == a;
            if k < front.len() {
                assert(front[k] == a);
                assert(front.contains(a));
            } else {
                assert(last[k - front.len()] == a);
                assert(on_page(pages, m as u32).contains(a));
            }
        }
        if exists|p: u32| p < n && #[trigger] on_page(pages, p).contains(a) {
            let p = choose|p: u32| p < n && #[trigger] on_page(pages, p).contains(a);
            if p == m {
                assert(last.contains(a));
            } else {
                assert(p < m && on_page(pages, p).contains(a));
            }
        }
    }
}

/// An address that is on one page at most, and there at most once, is listed
/// at most once.
proof fn lemma_listing_distinct(s: ComplianceView, n: nat)
    requires
        s.wf(),
        n <= u32::MAX + 1,
    ensures
        listing(s.pages, n).no_duplicates(),
    decreases n,
{
    if n > 0 {
        let m = (n - 1) as nat;
        lemma_listing_distinct(s, m);
        let front = listing(s.pages, m);
        let last = on_page(s.pages, m as u32);
        let all = listing(s.pages, n);
        assert(last.no_duplicates()) by {
            assert(s.pages.contains_key(m as u32) ==> s.pages[m as u32].no_duplicates());
        }
        assert forall|i: int, j: int| 0 <= i < all.len() && 0 <= j < all.len() && i != j implies
            all[i] != all[j] by {
            lemma_front_apart(s, m, all[i]);
            lemma_front_apart(s, m, all[j]);
            if i < front.len() {
                assert(front.contains(all[i]));
            } else {
                assert(last[i - front.len()] == all[i]);
                assert(last.contains(all[i]));
            }
            if j < front.len() {
                assert(front.contains(all[j]));
            } else {
                assert(last[j - front.len()] == all[j]);
                assert(last.contains(all[j]));
            }
        }
    }
}

/// What is listed before a page is not on it.
proof fn lemma_front_apart(s: ComplianceView, m: nat, a: Address)
    requires
        s.wf(),
        m <= u32::MAX,
    ensures
        !(listing(s.pages, m).contains(a) && on_page(s.pages, m as u32).contains(a)),
{
    lemma_listing(s.pages, m, a);
    if listing(s.pages, m).contains(a) && on_page(s.pages, m as u32).contains(a) {
        let p = choose|p: u32| p < m && #[trigger] on_page(s.pages, p).contains(a);
        assert(s.page_of[a] == p);
        assert(s.page_of[a] == m as u32);
    }
}

/// The allowlist holds every address that has a record, each once, and no
/// other address.
pub proof fn law_allowlist_is_exact(s: ComplianceView)
    requires
        s.wf(),
    ensures
        s.allowlist().no_duplicates(),
        forall|a: Address| #[trigger] s.allowlist().contains(a) <==> s.records.contains_key(a),
{
    let n = s.page as nat + 1;
    lemma_listing_distinct(s, n);
    assert forall|a: Address| #[trigger] s.allowlist().contains(a) <==> s.records.contains_key(
        a,
    ) by {
        lemma_listing(s.pages, n, a);
        assert(s.page_of.contains_key(a) <==> s.records.contains_key(a));
        if s.page_of.contains_key(a) {
            let p = s.page_of[a];
            assert(on_page(s.pages, p).contains(a));
            assert(s.pages.contains_key(p));
            assert(p < n);
        }
        if s.allowlist().contains(a) {
            let p = choose|p: u32| p < n && #[trigger] on_page(s.pages, p).contains(a);
            assert(s.page_of.contains_key(a));
        }
    }
}

/// No page of the allowlist ever holds more than its number, however long the
/// list is.
pub proof fn law_pages_are_bounded(s: ComplianceView, p: u32)
    requires
        s.wf(),
    ensures
        on_page(s.pages, p).len() <= ALLOWLIST_PAGE_SIZE,
{
    assert(s.pages.contains_key(p) ==> s.pages[p].len() <= ALLOWLIST_PAGE_SIZE);
}

/// A new contract is in order.
pub proof fn law_blank_is_wf()
    ensures
        ComplianceView::blank().wf(),
{
}

/// A change of role keeps a contract in order.
pub proof fn law_role_change_keeps_wf(s: ComplianceView, role: AdminRole)
    requires
        s.wf(),
        role.wf(),
    ensures
        s.with_role(role).wf(),
{
    let t = s.with_role(role);
    lemma_wf_from_parts(s, t);
}

/// A contract is in order if its allowlist, its records and its blocked
/// jurisdictions are those of one in order.
proof fn lemma_wf_from_parts(s: ComplianceView, t: ComplianceView)
    requires
        s.wf(),
        t.role.wf(),
        t.page == s.page,
        t.page_len == s.page_len,
        t.pages == s.pages,
        t.page_of == s.page_of,
        forall|a: Address| #[trigger] t.records.contains_key(a) <==> s.records.contains_key(a),
        forall|a: Address| #[trigger]
            t.records.contains_key(a) ==> record_wf(t.records[a], a),
        forall|c: CountryCode| #[trigger]
            t.blocked.contains_key(c) ==> t.blocked[c] && code_wf(c),
    ensures
        t.wf(),
{
    assert forall|a: Address|
        #![trigger t.page_of.contains_key(a)]
        #![trigger t.records.contains_key(a)]
        t.page_of.contains_key(a) <==> t.records.contains_key(a) by {
        assert(s.page_of.contains_key(a) <==> s.records.contains_key(a));
        assert(t.records.contains_key(a) <==> s.records.contains_key(a));
    }
    assert forall|a: Address| #[trigger] t.page_of.contains_key(a) implies on_page(
        t.pages,
        t.page_of[a],
    ).contains(a) by {
        assert(s.page_of.contains_key(a));
    }
    assert forall|p: u32, a: Address| #[trigger] on_page(t.pages, p).contains(a) implies
        t.page_of.contains_key(a) && t.page_of[a] == p by {
        assert(on_page(s.pages, p).contains(a));
    }
    assert forall|p: u32| #[trigger] t.pages.contains_key(p) implies p <= t.page && t.pages[p].len()
        <= ALLOWLIST_PAGE_SIZE && t.pages[p].no_duplicates() by {
        assert(s.pages.contains_key(p));
    }
}

/// A normalized code is two upper-case letters.
pub proof fn law_codes_are_upper_case(raw: Seq<u8>)
    ensures
        country_named(raw) matches Some(code) ==> code_wf(code),
{
}

/// An approval keeps a contract in order.
pub proof fn law_approve_keeps_wf(s: ComplianceView, record: KycRecord)
    requires
        s.wf(),
        record_wf(record, record.address),
        !s.records.contains_key(record.address) && s.page_is_full() ==> s.page < u32::MAX,
    ensures
        s.approved(record).wf(),
{
    let who = record.address;
    let t = s.approved(record);
    if s.records.contains_key(who) {
        assert forall|a: Address| #[trigger] t.records.contains_key(a) implies record_wf(
            t.records[a],
            a,
        ) by {
            assert(s.records.contains_key(a));
        }
        assert forall|c: CountryCode| #[trigger] t.blocked.contains_key(c) implies t.blocked[c]
            && code_wf(c) by {
            assert(s.blocked.contains_key(c));
        }
        lemma_wf_from_parts(s, t);
    } else {
        let page = t.page;
        let before = on_page(s.pages, page);
        assert(!s.page_of.contains_key(who));
        assert(!before.contains(who));
        if s.page_is_full() {
            assert(!s.pages.contains_key(page));
        }
        lemma_push_distinct(before, who);
        assert(before.no_duplicates()) by {
            assert(s.pages.contains_key(page) ==> s.pages[page].no_duplicates());
        }
        assert forall|p: u32| #[trigger] t.pages.contains_key(p) implies p <= t.page
            && t.pages[p].len() <= ALLOWLIST_PAGE_SIZE && t.pages[p].no_duplicates() by {
            if p != page {
                assert(s.pages.contains_key(p));
            }
        }
        assert forall|a: Address|
            #![trigger t.page_of.contains_key(a)]
            #![trigger t.records.contains_key(a)]
            t.page_of.contains_key(a) <==> t.records.contains_key(a) by {
            assert(s.page_of.contains_key(a) <==> s.records.contains_key(a));
        }
        assert forall|a: Address| #[trigger] t.page_of.contains_key(a) implies on_page(
            t.pages,
            t.page_of[a],
        ).contains(a) by {
            lemma_push_contains(before, who, a);
            if a != who {
                assert(s.page_of.contains_key(a));
                assert(on_page(s.pages, s.page_of[a]).contains(a));
            }
        }
        assert forall|p: u32, a: Address| #[trigger] on_page(t.pages, p).contains(a) implies
            t.page_of.contains_key(a) && t.page_of[a] == p by {
            lemma_push_contains(before, who, a);
            if a != who {
                assert(on_page(s.pages, p).contains(a));
            } else if p != page {
                assert(on_page(s.pages, p).contains(a));
            }
        }
        assert forall|a: Address| #[trigger] t.records.contains_key(a) implies record_wf(
            t.records[a],
            a,
        ) by {
            if a != who {
                assert(s.records.contains_key(a));
            }
        }
        assert forall|c: CountryCode| #[trigger] t.blocked.contains_key(c) implies t.blocked[c]
            && code_wf(c) by {
            assert(s.blocked.contains_key(c));
        }
    }
}

/// A suspension keeps a contract in order.
pub proof fn law_suspend_keeps_wf(s: ComplianceView, who: Address)
    requires
        s.wf(),
        s.records.contains_key(who),
    ensures
        s.suspended(who).wf(),
{
    let t = s.suspended(who);
    assert forall|a: Address| #[trigger] t.records.contains_key(a) implies record_wf(
        t.records[a],
        a,
    ) by {
        assert(s.records.contains_key(a));
        assert(s.records.contains_key(who));
    }
    assert forall|c: CountryCode| #[trigger] t.blocked.contains_key(c) implies t.blocked[c]
        && code_wf(c) by {
        assert(s.blocked.contains_key(c));
    }
    lemma_wf_from_parts(s, t);
}

/// Blocking and unblocking a jurisdiction keep a contract in order.
pub proof fn law_block_keeps_wf(s: ComplianceView, code: CountryCode)
    requires
        s.wf(),
        code_wf(code),
    ensures
        s.blocking(code).wf(),
        s.unblocking(code).wf(),
{
    let t = s.blocking(code);
    assert forall|c: CountryCode| #[trigger] t.blocked.contains_key(c) implies t.blocked[c]
        && code_wf(c) by {
        assert(c != code ==> s.blocked.contains_key(c));
    }
    lemma_wf_from_parts(s, t);
    let u = s.unblocking(code);
    assert forall|c: CountryCode| #[trigger] u.blocked.contains_key(c) implies u.blocked[c]
        && code_wf(c) by {
        assert(s.blocked.contains_key(c));
    }
    lemma_wf_from_parts(s, u);
}

/// A removal keeps a contract in order.
pub proof fn law_remove_keeps_wf(s: ComplianceView, who: Address)
    requires
        s.wf(),
        s.records.contains_key(who),
    ensures
        s.removed(who).wf(),
{
    let t = s.removed(who);
    assert(s.page_of.contains_key(who));
    let page = s.page_of[who];
    let before = on_page(s.pages, page);
    assert(before.contains(who));
    assert(s.pages.contains_key(page));
    lemma_without(before, who);
    assert forall|p: u32| #[trigger] t.pages.contains_key(p) implies p <= t.page && t.pages[p].len()
        <= ALLOWLIST_PAGE_SIZE && t.pages[p].no_duplicates() by {
        assert(s.pages.contains_key(p));
    }
    assert forall|a: Address|
        #![trigger t.page_of.contains_key(a)]
        #![trigger t.records.contains_key(a)]
        t.page_of.contains_key(a) <==> t.records.contains_key(a) by {
        assert(s.page_of.contains_key(a) <==> s.records.contains_key(a));
    }
    assert forall|a: Address| #[trigger] t.page_of.contains_key(a) implies on_page(
        t.pages,
        t.page_of[a],
    ).contains(a) by {
        assert(s.page_of.contains_key(a));
        assert(on_page(s.pages, s.page_of[a]).contains(a));
        assert(without(before, who).contains(a) <==> before.contains(a) && a != who);
    }
    assert forall|p: u32, a: Address| #[trigger] on_page(t.pages, p).contains(a) implies
        t.page_of.contains_key(a) && t.page_of[a] == p by {
        assert(without(before, who).contains(a) <==> before.contains(a) && a != who);
        assert(on_page(s.pages, p).contains(a));
    }
    assert forall|a: Address| #[trigger] t.records.contains_key(a) implies record_wf(
        t.records[a],
        a,
    ) by {
        assert(s.records.contains_key(a));
    }
    assert forall|c: CountryCode| #[trigger] t.blocked.contains_key(c) implies t.blocked[c]
        && code_wf(c) by {
        assert(s.blocked.contains_key(c));
    }
    assert(on_page(t.pages, t.page).len() <= on_page(s.pages, s.page).len());
}

/// In a contract in order, those whose record has run out are those dropped.
proof fn lemma_dropped(s: ComplianceView, now: u32, a: Address)
    requires
        s.wf(),
    ensures
        dropped(s.allowlist(), s.records, now).contains(a) <==> lapsed(s.records, now, a),
{
    law_allowlist_is_exact(s);
    assert(s.allowlist().contains(a) <==> s.records.contains_key(a));
}

/// Pruning keeps a contract in order.
pub proof fn law_prune_keeps_wf(s: ComplianceView, now: u32)
    requires
        s.wf(),
    ensures
        s.pruned(now).wf(),
{
    let t = s.pruned(now);
    assert forall|p: u32| on_page(t.pages, p) == kept(on_page(s.pages, p), s.records, now) by {
        if s.pages.contains_key(p) {
            assert(p <= s.page);
        }
    }
    assert forall|p: u32| #[trigger] t.pages.contains_key(p) implies p <= t.page && t.pages[p].len()
        <= ALLOWLIST_PAGE_SIZE && t.pages[p].no_duplicates() by {
        assert(s.pages.contains_key(p));
        lemma_kept(s.pages[p], s.records, now);
    }
    lemma_kept(on_page(s.pages, s.page), s.records, now);
    assert(on_page(t.pages, t.page).len() <= t.page_len);
    assert forall|a: Address|
        #![trigger t.page_of.contains_key(a)]
        #![trigger t.records.contains_key(a)]
        t.page_of.contains_key(a) <==> t.records.contains_key(a) by {
        assert(s.page_of.contains_key(a) <==> s.records.contains_key(a));
    }
    assert forall|a: Address| #[trigger] t.page_of.contains_key(a) implies on_page(
        t.pages,
        t.page_of[a],
    ).contains(a) by {
        assert(s.page_of.contains_key(a));
        lemma_dropped(s, now, a);
        let p = s.page_of[a];
        assert(on_page(s.pages, p).contains(a));
        lemma_kept(on_page(s.pages, p), s.records, now);
        assert(kept(on_page(s.pages, p), s.records, now).contains(a) <==> on_page(
            s.pages,
            p,
        ).contains(a) && current(s.records, now, a));
    }
    assert forall|p: u32, a: Address| #[trigger] on_page(t.pages, p).contains(a) implies
        t.page_of.contains_key(a) && t.page_of[a] == p by {
        lemma_kept(on_page(s.pages, p), s.records, now);
        assert(kept(on_page(s.pages, p), s.records, now).contains(a) <==> on_page(
            s.pages,
            p,
        ).contains(a) && current(s.records, now, a));
        assert(on_page(s.pages, p).contains(a));
        lemma_dropped(s, now, a);
    }
    assert forall|a: Address| #[trigger] t.records.contains_key(a) implies record_wf(
        t.records[a],
        a,
    ) by {
        assert(s.records.contains_key(a));
    }
    assert forall|c: CountryCode| #[trigger] t.blocked.contains_key(c) implies t.blocked[c]
        && code_wf(c) by {
        assert(s.blocked.contains_key(c));
    }
}

/// An approval lets an address in: from the ledger of the approval until its
/// expiry the address is allowed, unless its jurisdiction is blocked. It does
/// so again after a suspension or an expiry, and changes nothing for anybody
/// else.
pub proof fn law_approval_opens(
    s: ComplianceView,
    signed: Seq<Address>,
    now: u32,
    admin: Address,
    jurisdiction: Seq<u8>,
    record: KycRecord,
    later: u32,
    other: Address,
)
    requires
        approve_refusal(s, signed, now, admin, jurisdiction, record.expires_at) is None,
        record.status == ComplianceStatus::Approved,
        country_named(jurisdiction) == Some(record.jurisdiction),
        other != record.address,
    ensures
        ({
            let t = s.approved(record);
            &&& allowed(t, later, record.address) <==> (record.expires_at == 0 || later
                < record.expires_at) && !is_blocked(s, record.jurisdiction)
            &&& !is_blocked(s, record.jurisdiction) ==> allowed(t, now, record.address)
            &&& t.records.contains_key(other) == s.records.contains_key(other)
            &&& t.records[other] == s.records[other]
            &&& allowed(t, later, other) == allowed(s, later, other)
        }),
{
}

/// A suspension shuts one address out, at every ledger, until it is
/// approved again; the record stays but for its status, and nothing changes
/// for anybody else.
pub proof fn law_suspension_closes(s: ComplianceView, who: Address, other: Address, now: u32)
    requires
        s.records.contains_key(who),
        other != who,
    ensures
        ({
            let t = s.suspended(who);
            &&& !allowed(t, now, who)
            &&& t.records.contains_key(who)
            &&& t.records[who] == (KycRecord {
                status: ComplianceStatus::Suspended,
                ..s.records[who]
            })
            &&& t.allowlist() == s.allowlist()
            &&& t.records.contains_key(other) == s.records.contains_key(other)
            &&& t.records[other] == s.records[other]
            &&& allowed(t, now, other) == allowed(s, now, other)
        }),
{
}

/// A removal leaves nothing of an address, neither record nor place on the
/// allowlist, and changes nothing for anybody else.
pub proof fn law_removal_is_complete(s: ComplianceView, who: Address, other: Address, now: u32)
    requires
        s.wf(),
        s.records.contains_key(who),
        other != who,
    ensures
        ({
            let t = s.removed(who);
            &&& !t.records.contains_key(who)
            &&& !t.allowlist().contains(who)
            &&& !allowed(t, now, who)
            &&& t.records.contains_key(other) == s.records.contains_key(other)
            &&& t.records[other] == s.records[other]
            &&& t.allowlist().contains(other) == s.allowlist().contains(other)
            &&& allowed(t, now, other) == allowed(s, now, other)
        }),
{
    let t = s.removed(who);
    law_remove_keeps_wf(s, who);
    law_allowlist_is_exact(s);
    law_allowlist_is_exact(t);
    assert(s.page_of.contains_key(who));
    assert(t.allowlist().contains(who) <==> t.records.contains_key(who));
    assert(t.allowlist().contains(other) <==> t.records.contains_key(other));
    assert(s.allowlist().contains(other) <==> s.records.contains_key(other));
}

/// A blocked jurisdiction shuts everybody of it out and nobody
/// else.
pub proof fn law_block_closes(s: ComplianceView, code: CountryCode, now: u32, who: Address)
    ensures
        allowed(s.blocking(code), now, who) <==> allowed(s, now, who)
            && s.records[who].jurisdiction != code,
{
}

/// Unblocking a jurisdiction undoes the block: everybody is as if it had never
/// been blocked.
pub proof fn law_unblock_undoes_block(s: ComplianceView, code: CountryCode, now: u32, who: Address)
    requires
        !is_blocked(s, code),
    ensures
        allowed(s.blocking(code).unblocking(code), now, who) == allowed(s, now, who),
        !is_blocked(s.blocking(code).unblocking(code), code),
        s.wf() ==> s.blocking(code).unblocking(code) == s,
{
    if s.wf() {
        assert(!s.blocked.contains_key(code));
        assert(s.blocking(code).unblocking(code) =~= s);
    }
}

/// The text of a country code.
pub open spec fn code_text(code: CountryCode) -> Seq<u8> {
    seq![code.first, code.second]
}

/// The upper-case form of a text without its spaces.
pub open spec fn plain(raw: Seq<u8>) -> Seq<u8> {
    without_spaces(raw).map_values(|b: u8| upper(b))
}

/// Case and spaces do not matter in a jurisdiction: texts that differ in them
/// alone name the same country code, or are both refused.
pub proof fn law_jurisdictions_ignore_case_and_spaces(one: Seq<u8>, other: Seq<u8>)
    requires
        plain(one) == plain(other),
    ensures
        country_named(one) == country_named(other),
{
    let a = without_spaces(one);
    let b = without_spaces(other);
    assert(plain(one).len() == a.len());
    assert(plain(other).len() == b.len());
    if a.len() == 2 {
        assert(plain(one)[0] == upper(a[0]) && plain(one)[1] == upper(a[1]));
        assert(plain(other)[0] == upper(b[0]) && plain(other)[1] == upper(b[1]));
    }
}

/// Normalizing twice is normalizing once: the text of a country code names
/// that code. A code that is looked up from a record is the one that was
/// blocked.
pub proof fn law_normalization_is_stable(code: CountryCode)
    requires
        code_wf(code),
    ensures
        country_named(code_text(code)) == Some(code),
{
    let text = code_text(code);
    assert(text.drop_last() =~= seq![code.first]);
    assert(text.drop_last().drop_last() =~= Seq::<u8>::empty());
    reveal_with_fuel(without_spaces, 3);
    assert(without_spaces(text) =~= text);
}

/// An approval without an expiry never runs out; one that has run out stays
/// so.
pub proof fn law_expiry_is_final(record: KycRecord, now: u32, later: u32)
    requires
        now <= later,
    ensures
        record.expires_at == 0 ==> !expired(record, now),
        expired(record, now) ==> expired(record, later),
{
}

/// Pruning takes away exactly the records that have run out: everybody else
/// keeps record and place, nobody is allowed or refused who was not before,
/// now or later, and nothing is left to prune.
pub proof fn law_prune_is_exact(s: ComplianceView, now: u32, later: u32, who: Address)
    requires
        s.wf(),
        now <= later,
    ensures
        ({
            let t = s.pruned(now);
            &&& t.records.contains_key(who) <==> current(s.records, now, who)
            &&& t.records.contains_key(who) ==> t.records[who] == s.records[who]
            &&& t.allowlist().contains(who) <==> current(s.records, now, who)
            &&& allowed(t, later, who) == allowed(s, later, who)
            &&& t.pruned(now) == t
        }),
{
    let t = s.pruned(now);
    lemma_dropped(s, now, who);
    law_prune_keeps_wf(s, now);
    law_allowlist_is_exact(t);
    assert(t.allowlist().contains(who) <==> t.records.contains_key(who));
    assert forall|a: Address| #[trigger] t.records.contains_key(a) implies current(
        t.records,
        now,
        a,
    ) by {
        lemma_dropped(s, now, a);
    }
    let gone = dropped(t.allowlist(), t.records, now);
    assert(gone =~= Set::<Address>::empty()) by {
        assert forall|a: Address| !gone.contains(a) by {
            assert(t.records.contains_key(a) ==> current(t.records, now, a));
        }
    }
    assert forall|p: u32| #[trigger] t.pages.contains_key(p) implies kept(
        t.pages[p],
        t.records,
        now,
    ) == t.pages[p] by {
        assert forall|a: Address| t.pages[p].contains(a) implies current(t.records, now, a) by {
            assert(on_page(t.pages, p).contains(a));
            assert(t.page_of.contains_key(a));
            assert(t.records.contains_key(a));
        }
        lemma_all_kept(t.pages[p], t.records, now);
    }
    assert(kept_pages(t.pages, t.page + 1, t.records, now) =~= t.pages);
    assert(t.records.remove_keys(gone) =~= t.records);
    assert(t.page_of.remove_keys(gone) =~= t.page_of);
    assert(t.pruned(now) =~= t);
}

/// A list on which no record has run out is kept as it is.
proof fn lemma_all_kept(list: Seq<Address>, records: Map<Address, KycRecord>, now: u32)
    requires
        forall|a: Address| list.contains(a) ==> current(records, now, a),
    ensures
        kept(list, records, now) == list,
    decreases list.len(),
{
    if list.len() > 0 {
        let front = list.drop_last();
        let last = list.last();
        assert(front.push(last) =~= list);
        assert forall|a: Address| front.contains(a) implies current(records, now, a) by {
            lemma_push_contains(front, last, a);
        }
        lemma_all_kept(front, records, now);
        lemma_push_contains(front, last, last);
        assert(current(records, now, last));
    }
}

/// The list of the first pages depends on those pages alone.
proof fn lemma_listing_frame(a: Map<u32, Seq<Address>>, b: Map<u32, Seq<Address>>, n: nat)
    requires
        n <= u32::MAX + 1,
        forall|p: u32| p < n ==> #[trigger] on_page(a, p) == on_page(b, p),
    ensures
        listing(a, n) == listing(b, n),
    decreases n,
{
    if n > 0 {
        lemma_listing_frame(a, b, (n - 1) as nat);
        assert(on_page(a, (n - 1) as u32) == on_page(b, (n - 1) as u32));
    }
}

/// A new address comes last on the allowlist; an address that is approved
/// again keeps its place.
pub proof fn law_new_addresses_come_last(s: ComplianceView, record: KycRecord)
    requires
        s.wf(),
        !s.records.contains_key(record.address) && s.page_is_full() ==> s.page < u32::MAX,
    ensures
        s.approved(record).allowlist() == if s.records.contains_key(record.address) {
            s.allowlist()
        } else {
            s.allowlist().push(record.address)
        },
{
    let t = s.approved(record);
    let who = record.address;
    if !s.records.contains_key(who) {
        let page = t.page;
        assert forall|p: u32| p < page implies #[trigger] on_page(t.pages, p) == on_page(
            s.pages,
            p,
        ) by {}
        lemma_listing_frame(t.pages, s.pages, page as nat);
        if s.page_is_full() {
            assert(!s.pages.contains_key(page));
            assert(on_page(t.pages, page) =~= seq![who]);
        }
        assert(t.allowlist() =~= s.allowlist().push(who));
    }
}

proof fn lemma_without_append(one: Seq<Address>, other: Seq<Address>, who: Address)
    ensures
        without(one + other, who) == without(one, who) + without(other, who),
    decreases other.len(),
{
    if other.len() == 0 {
        assert(one + other =~= one);
        assert(without(one, who) + without(other, who) =~= without(one, who));
    } else {
        assert((one + other).drop_last() =~= one + other.drop_last());
        lemma_without_append(one, other.drop_last(), who);
        assert(without(one + other, who) =~= without(one, who) + without(other, who));
    }
}

proof fn lemma_without_absent(list: Seq<Address>, who: Address)
    requires
        !list.contains(who),
    ensures
        without(list, who) == list,
    decreases list.len(),
{
    if list.len() > 0 {
        let front = list.drop_last();
        let last = list.last();
        assert(front.push(last) =~= list);
        lemma_push_contains(front, last, who);
        lemma_without_absent(front, who);
    }
}

/// Striking an address off one page strikes it off the list, if it is on no
/// other page.
proof fn lemma_listing_without(
    a: Map<u32, Seq<Address>>,
    b: Map<u32, Seq<Address>>,
    n: nat,
    who: Address,
)
    requires
        n <= u32::MAX + 1,
        forall|p: u32| p < n ==> #[trigger] on_page(b, p) == without(on_page(a, p), who),
    ensures
        listing(b, n) == without(listing(a, n), who),
    decreases n,
{
    if n > 0 {
        let m = (n - 1) as nat;
        lemma_listing_without(a, b, m, who);
        assert(on_page(b, m as u32) == without(on_page(a, m as u32), who));
        lemma_without_append(listing(a, m), on_page(a, m as u32), who);
    }
}

/// A removal keeps the order of the others on the allowlist.
pub proof fn law_removal_keeps_order(s: ComplianceView, who: Address)
    requires
        s.wf(),
        s.records.contains_key(who),
    ensures
        s.removed(who).allowlist() == without(s.allowlist(), who),
{
    let t = s.removed(who);
    assert(s.page_of.contains_key(who));
    assert forall|p: u32| p < s.page + 1 implies #[trigger] on_page(t.pages, p) == without(
        on_page(s.pages, p),
        who,
    ) by {
        if p != s.page_of[who] {
            assert(!on_page(s.pages, p).contains(who));
            lemma_without_absent(on_page(s.pages, p), who);
        }
    }
    lemma_listing_without(s.pages, t.pages, s.page as nat + 1, who);
}

proof fn lemma_kept_append(
    one: Seq<Address>,
    other: Seq<Address>,
    records: Map<Address, KycRecord>,
    now: u32,
)
    ensures
        kept(one + other, records, now) == kept(one, records, now) + kept(other, records, now),
    decreases other.len(),
{
    if other.len() == 0 {
        assert(one + other =~= one);
        assert(kept(one, records, now) + kept(other, records, now) =~= kept(one, records, now));
    } else {
        assert((one + other).drop_last() =~= one + other.drop_last());
        lemma_kept_append(one, other.drop_last(), records, now);
        assert(kept(one + other, records, now) =~= kept(one, records, now) + kept(
            other,
            records,
            now,
        ));
    }
}

proof fn lemma_listing_kept(
    pages: Map<u32, Seq<Address>>,
    n: nat,
    records: Map<Address, KycRecord>,
    now: u32,
    end: int,
)
    requires
        n <= end <= u32::MAX + 1,
    ensures
        listing(kept_pages(pages, end, records, now), n) == kept(
            listing(pages, n),
            records,
            now,
        ),
    decreases n,
{
    if n > 0 {
        let m = (n - 1) as nat;
        lemma_listing_kept(pages, m, records, now, end);
        lemma_kept_append(listing(pages, m), on_page(pages, m as u32), records, now);
        assert(on_page(kept_pages(pages, end, records, now), m as u32) == kept(
            on_page(pages, m as u32),
            records,
            now,
        ));
    }
}

/// Pruning keeps the order of those who stay on the allowlist.
pub proof fn law_prune_keeps_order(s: ComplianceView, now: u32)
    ensures
        s.pruned(now).allowlist() == kept(s.allowlist(), s.records, now),
{
    lemma_listing_kept(s.pages, s.page as nat + 1, s.records, now, s.page + 1);
}

/// Pruning announces every approval that has run out, each once, and nothing
/// else.
pub proof fn law_prune_announces(
    list: Seq<Address>,
    records: Map<Address, KycRecord>,
    now: u32,
)
    ensures
        expiries(list, records, now).no_duplicates(),
        forall|e: Event| #[trigger]
            expiries(list, records, now).contains(e) <==> exists|a: Address| #[trigger]
                list.contains(a) && lapsed(records, now, a) && e == (Event::Expired {
                    address: a,
                    expires_at: records[a].expires_at,
                }),
    decreases list.len(),
{
    if list.len() > 0 {
        let front = list.drop_last();
        let last = list.last();
        law_prune_announces(front, records, now);
        assert(front.push(last) =~= list);
        let rest = expiries(front, records, now);
        let all = expiries(list, records, now);
        let event = Event::Expired { address: last, expires_at: records[last].expires_at };
        assert forall|e: Event| #[trigger] all.contains(e) implies exists|a: Address| #[trigger]
            list.contains(a) && lapsed(records, now, a) && e == (Event::Expired {
                address: a,
                expires_at: records[a].expires_at,
            }) by {
            let k = choose|k: int| 0 <= k < all.len() && all[k] == e;
            if k < rest.len() {
                assert(rest[k] == e);
                assert(rest.contains(e));
                let a = choose|a: Address| #[trigger]
                    front.contains(a) && lapsed(records, now, a) && e == (Event::Expired {
                        address: a,
                        expires_at: records[a].expires_at,
                    });
                lemma_push_contains(front, last, a);
                assert(list.contains(a));
            } else {
                lemma_push_contains(front, last, last);
                assert(list.contains(last));
            }
        }
        assert forall|e: Event|
            (exists|a: Address| #[trigger]
                list.contains(a) && lapsed(records, now, a) && e == (Event::Expired {
                    address: a,
                    expires_at: records[a].expires_at,
                })) implies #[trigger] all.contains(e) by {
            let a = choose|a: Address| #[trigger]
                list.contains(a) && lapsed(records, now, a) && e == (Event::Expired {
                    address: a,
                    expires_at: records[a].expires_at,
                });
            lemma_push_contains(front, last, a);
            if front.contains(a) {
                assert(rest.contains(e));
                let k = choose|k: int| 0 <= k < rest.len() && rest[k] == e;
                assert(all[k] == e);
            } else {
                assert(a == last);
                assert(all[rest.len() as int] == event);
            }
        }
        if lapsed(records, now, last) && !front.contains(last) {
            assert(!rest.contains(event)) by {
                if rest.contains(event) {
                    let a = choose|a: Address| #[trigger]
                        front.contains(a) && lapsed(records, now, a) && event == (Event::Expired {
                            address: a,
                            expires_at: records[a].expires_at,
                        });
                    assert(a == last);
                }
            }
            assert forall|i: int, j: int|
                0 <= i < all.len() && 0 <= j < all.len() && i != j implies all[i] != all[j] by {
                if i < rest.len() {
                    assert(rest.contains(rest[i]));
                }
                if j < rest.len() {
                    assert(rest.contains(rest[j]));
                }
            }
        }
    }
}

/// Whether an address is allowed depends on its record and on the mark of its
/// jurisdiction alone.
pub proof fn law_asking_is_local(s: ComplianceView, t: ComplianceView, now: u32, who: Address)
    requires
        agree(s.records, t.records, who),
        s.records.contains_key(who) ==> agree(
            s.blocked,
            t.blocked,
            s.records[who].jurisdiction,
        ),
    ensures
        allowed(s, now, who) == allowed(t, now, who),
        query_events(s, now, who) == query_events(t, now, who),
{
}

/// The page to which the next new address goes.
pub open spec fn next_page(s: ComplianceView) -> u32 {
    if s.page_is_full() {
        (s.page + 1) as u32
    } else {
        s.page
    }
}

/// An approval reads the role, the page cursor, the record of the address and
/// the page to which a new address goes, and writes those and the page of that
/// address. Whatever else is in storage makes no difference and is not touched.
pub proof fn law_approve_is_local(
    s: ComplianceView,
    t: ComplianceView,
    signed: Seq<Address>,
    now: u32,
    admin: Address,
    jurisdiction: Seq<u8>,
    record: KycRecord,
    other: Address,
    other_page: u32,
)
    requires
        s.role == t.role,
        s.page == t.page,
        s.page_len == t.page_len,
        agree(s.records, t.records, record.address),
        s.records.contains_key(record.address) || agree(s.pages, t.pages, next_page(s)),
    ensures
        approve_refusal(s, signed, now, admin, jurisdiction, record.expires_at) == approve_refusal(
            t,
            signed,
            now,
            admin,
            jurisdiction,
            record.expires_at,
        ),
        ({
            let a = s.approved(record);
            let b = t.approved(record);
            let known = s.records.contains_key(record.address);
            &&& a.role == s.role
            &&& a.page == b.page
            &&& a.page_len == b.page_len
            &&& a.blocked == s.blocked
            &&& agree(a.records, b.records, record.address)
            &&& !known ==> agree(a.pages, b.pages, a.page) && agree(
                a.page_of,
                b.page_of,
                record.address,
            )
            &&& other != record.address ==> agree(a.records, s.records, other) && agree(
                a.page_of,
                s.page_of,
                other,
            )
            &&& known || other_page != a.page ==> agree(a.pages, s.pages, other_page)
        }),
{
}

/// A suspension and a removal read the role, the record of the address, and a
/// removal its page, and write no others.
pub proof fn law_record_changes_are_local(
    s: ComplianceView,
    t: ComplianceView,
    signed: Seq<Address>,
    admin: Address,
    who: Address,
    other: Address,
    other_page: u32,
)
    requires
        s.role == t.role,
        agree(s.records, t.records, who),
        agree(s.page_of, t.page_of, who),
        s.page_of.contains_key(who) ==> agree(s.pages, t.pages, s.page_of[who]),
        other != who,
    ensures
        record_refusal(s, signed, admin, who) == record_refusal(t, signed, admin, who),
        record_refusal(s, signed, admin, who) is None ==> {
            &&& agree(s.suspended(who).records, t.suspended(who).records, who)
            &&& agree(s.suspended(who).records, s.records, other)
            &&& s.suspended(who).pages == s.pages
            &&& s.suspended(who).page_of == s.page_of
            &&& agree(s.removed(who).records, t.removed(who).records, who)
            &&& agree(s.removed(who).records, s.records, other)
            &&& agree(s.removed(who).page_of, t.removed(who).page_of, who)
            &&& agree(s.removed(who).page_of, s.page_of, other)
            &&& s.page_of.contains_key(who) ==> agree(
                s.removed(who).pages,
                t.removed(who).pages,
                s.page_of[who],
            )
            &&& !s.page_of.contains_key(who) || other_page != s.page_of[who] ==> agree(
                s.removed(who).pages,
                s.pages,
                other_page,
            )
        },
{
}

proof fn lemma_kept_local(
    list: Seq<Address>,
    a: Map<Address, KycRecord>,
    b: Map<Address, KycRecord>,
    now: u32,
)
    requires
        forall|who: Address| list.contains(who) ==> #[trigger] agree(a, b, who),
    ensures
        kept(list, a, now) == kept(list, b, now),
        expiries(list, a, now) == expiries(list, b, now),
        dropped(list, a, now) == dropped(list, b, now),
    decreases list.len(),
{
    assert(dropped(list, a, now) =~= dropped(list, b, now)) by {
        assert forall|who: Address| list.contains(who) implies lapsed(a, now, who) == lapsed(
            b,
            now,
            who,
        ) by {
            assert(agree(a, b, who));
        }
    }
    if list.len() > 0 {
        let front = list.drop_last();
        let last = list.last();
        assert(front.push(last) =~= list);
        assert forall|who: Address| front.contains(who) implies #[trigger] agree(a, b, who) by {
            lemma_push_contains(front, last, who);
        }
        lemma_kept_local(front, a, b, now);
        lemma_push_contains(front, last, last);
        assert(agree(a, b, last));
    }
}

/// The allowlist depends on the pages up to the cursor alone. Pruning reads
/// those pages and the entries of those on them, and writes no others.
pub proof fn law_prune_is_local(
    s: ComplianceView,
    t: ComplianceView,
    now: u32,
    p: u32,
    who: Address,
)
    requires
        s.page == t.page,
        forall|q: u32| q <= s.page ==> #[trigger] agree(s.pages, t.pages, q),
        forall|a: Address|
            s.allowlist().contains(a) ==> #[trigger] agree(s.records, t.records, a) && agree(
                s.page_of,
                t.page_of,
                a,
            ),
    ensures
        s.allowlist() == t.allowlist(),
        expiries(s.allowlist(), s.records, now) == expiries(t.allowlist(), t.records, now),
        p <= s.page ==> agree(s.pruned(now).pages, t.pruned(now).pages, p),
        p > s.page ==> agree(s.pruned(now).pages, s.pages, p),
        s.allowlist().contains(who) ==> agree(s.pruned(now).records, t.pruned(now).records, who)
            && agree(s.pruned(now).page_of, t.pruned(now).page_of, who),
        !s.allowlist().contains(who) ==> agree(s.pruned(now).records, s.records, who) && agree(
            s.pruned(now).page_of,
            s.page_of,
            who,
        ),
{
    let n = s.page as nat + 1;
    assert forall|q: u32| q < n implies #[trigger] on_page(s.pages, q) == on_page(t.pages, q) by {
        assert(agree(s.pages, t.pages, q));
    }
    lemma_listing_frame(s.pages, t.pages, n);
    lemma_kept_local(s.allowlist(), s.records, t.records, now);
    if p <= s.page && s.pages.contains_key(p) {
        assert(agree(s.pages, t.pages, p));
        let list = s.pages[p];
        assert forall|a: Address| list.contains(a) implies #[trigger] agree(
            s.records,
            t.records,
            a,
        ) by {
            lemma_listing(s.pages, n, a);
            assert(on_page(s.pages, p).contains(a));
        }
        lemma_kept_local(list, s.records, t.records, now);
    }
    if p <= s.page {
        assert(agree(s.pages, t.pages, p));
    }
    if s.allowlist().contains(who) {
        assert(agree(s.records, t.records, who));
    }
}

} // verus!
