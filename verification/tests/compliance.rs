use rwa_toolkit::address::{Address, AddressKind};
use rwa_toolkit::compliance::{
    normalize_jurisdiction, Abort, Call, ComplianceContract, ComplianceStatus, CountryCode, Error,
    Event, KycRecord, ALLOWLIST_PAGE_SIZE, VERSION,
};
use rwa_toolkit::invocation::{Extension, Invocation};

fn account(n: u128) -> Address {
    Address { kind: AddressKind::Account, hi: 1, lo: n }
}

fn this() -> Address {
    Address { kind: AddressKind::Contract, hi: 9, lo: 9 }
}

fn text(s: &str) -> Vec<u8> {
    s.as_bytes().to_vec()
}

fn code(s: &str) -> CountryCode {
    CountryCode { first: s.as_bytes()[0], second: s.as_bytes()[1] }
}

/// Makes a call at ledger `now` in which everybody signs who is asked to.
fn at<T>(
    client: &mut ComplianceContract,
    now: u32,
    f: impl Fn(&mut ComplianceContract, &mut Call) -> Result<T, Abort>,
) -> (Result<T, Error>, Call) {
    let mut env = Invocation::new(this(), now);
    loop {
        match f(client, &mut env) {
            Ok(v) => return (Ok(v), env),
            Err(Abort::Unsigned(who)) => env.authorize(who),
            Err(Abort::Error(e)) => return (Err(e), env),
        }
    }
}

fn setup() -> (ComplianceContract, Address) {
    let mut client = ComplianceContract::new();
    let admin = account(1);
    assert_eq!(at(&mut client, 10, |c, env| c.initialize(env, admin)).0, Ok(()));
    (client, admin)
}

fn approve(
    client: &mut ComplianceContract,
    now: u32,
    admin: Address,
    who: Address,
    jurisdiction: &str,
    expires_at: u32,
) -> (Result<(), Error>, Call) {
    at(client, now, |c, env| {
        c.add_to_allowlist(env, admin, who, &text(jurisdiction), expires_at)
    })
}

fn allowed(client: &mut ComplianceContract, now: u32, who: Address) -> bool {
    at(client, now, |c, env| Ok(c.is_allowed(env, who))).0 == Ok(true)
}

#[test]
fn compliance_version_is_one() {
    assert_eq!(ComplianceContract::version(), VERSION);
    assert_eq!(VERSION, 1);
}

#[test]
fn compliance_is_initialized_once() {
    let mut client = ComplianceContract::new();
    assert_eq!(client.get_admin(), Err(Abort::Error(Error::NotInitialized)));
    let mut env = Invocation::new(this(), 10);
    assert_eq!(client.initialize(&mut env, account(1)), Err(Abort::Unsigned(account(1))));
    env.authorize(account(1));
    assert_eq!(client.initialize(&mut env, account(1)), Ok(()));
    assert_eq!(env.events, vec![Event::Init { admin: account(1) }]);
    assert_eq!(env.extended, vec![Extension::Instance]);
    assert_eq!(client.get_admin(), Ok(account(1)));
    assert_eq!(
        client.initialize(&mut env, account(2)),
        Err(Abort::Error(Error::AlreadyInitialized))
    );
}

#[test]
fn only_the_admin_decides() {
    let (mut client, admin) = setup();
    let stranger = account(66);
    approve(&mut client, 10, admin, account(2), "US", 0).0.unwrap();
    assert_eq!(approve(&mut client, 10, stranger, account(3), "US", 0).0, Err(Error::Unauthorized));
    assert_eq!(
        at(&mut client, 10, |c, env| c.suspend(env, stranger, account(2))).0,
        Err(Error::Unauthorized)
    );
    assert_eq!(
        at(&mut client, 10, |c, env| c.remove(env, stranger, account(2))).0,
        Err(Error::Unauthorized)
    );
    assert_eq!(
        at(&mut client, 10, |c, env| c.block_jurisdiction(env, stranger, &text("US"))).0,
        Err(Error::Unauthorized)
    );
    assert_eq!(
        at(&mut client, 10, |c, env| c.unblock_jurisdiction(env, stranger, &text("US"))).0,
        Err(Error::Unauthorized)
    );
    assert_eq!(
        at(&mut client, 10, |c, env| c.prune_expired(env, stranger)).0,
        Err(Error::Unauthorized)
    );
    assert_eq!(client.get_allowlist(), vec![account(2)]);
    assert!(allowed(&mut client, 10, account(2)));
    // Before initialization everything is refused.
    let mut blank = ComplianceContract::new();
    assert_eq!(approve(&mut blank, 10, admin, account(3), "US", 0).0, Err(Error::NotInitialized));
}

#[test]
fn a_first_approval_is_recorded_and_announced() {
    let (mut client, admin) = setup();
    let who = account(2);
    assert_eq!(client.get_record(who), None);
    assert_eq!(client.status_of(who), None);
    assert!(!allowed(&mut client, 10, who));
    let (result, env) = approve(&mut client, 20, admin, who, "ke", 100);
    assert_eq!(result, Ok(()));
    assert_eq!(
        client.get_record(who),
        Some(KycRecord {
            address: who,
            status: ComplianceStatus::Approved,
            jurisdiction: code("KE"),
            verified_at: 20,
            expires_at: 100,
        })
    );
    assert_eq!(client.status_of(who), Some(ComplianceStatus::Approved));
    assert_eq!(
        env.events,
        vec![Event::Approved {
            address: who,
            jurisdiction: code("KE"),
            expires_at: 100,
        }]
    );
    assert_eq!(env.extended, vec![Extension::Instance]);
}

#[test]
fn a_reinstatement_is_announced_like_any_approval() {
    let (mut client, admin) = setup();
    let who = account(2);
    approve(&mut client, 20, admin, who, "KE", 100).0.unwrap();
    let (result, env) = at(&mut client, 21, |c, env| c.suspend(env, admin, who));
    assert_eq!(result, Ok(()));
    assert_eq!(env.events, vec![Event::Suspend { address: who }]);
    assert_eq!(client.status_of(who), Some(ComplianceStatus::Suspended));
    assert!(!allowed(&mut client, 22, who));
    assert_eq!(client.get_allowlist(), vec![who]);
    let (result, env) = approve(&mut client, 30, admin, who, "DE", 0);
    assert_eq!(result, Ok(()));
    assert_eq!(
        env.events,
        vec![Event::Approved {
            address: who,
            jurisdiction: code("DE"),
            expires_at: 0,
        }]
    );
    assert!(allowed(&mut client, u32::MAX, who));
    assert_eq!(client.get_allowlist(), vec![who]);
}

#[test]
fn approvals_expire_at_their_ledger() {
    let (mut client, admin) = setup();
    let who = account(2);
    assert_eq!(approve(&mut client, 50, admin, who, "US", 50).0, Err(Error::InvalidExpiry));
    assert_eq!(approve(&mut client, 50, admin, who, "US", 1).0, Err(Error::InvalidExpiry));
    assert_eq!(client.get_record(who), None);
    approve(&mut client, 50, admin, who, "US", 51).0.unwrap();
    assert!(allowed(&mut client, 50, who));
    let (result, env) = at(&mut client, 51, |c, env| Ok(c.is_allowed(env, who)));
    assert_eq!(result, Ok(false));
    assert_eq!(env.events, vec![Event::Expired { address: who, expires_at: 51 }]);
    assert!(env.extended.is_empty());
    assert!(!allowed(&mut client, 52, who));
    // The state on record is still that of an approval.
    assert_eq!(client.status_of(who), Some(ComplianceStatus::Approved));
    // A suspended address that has run out publishes nothing.
    at(&mut client, 51, |c, env| c.suspend(env, admin, who)).0.unwrap();
    let (_, env) = at(&mut client, 60, |c, env| Ok(c.is_allowed(env, who)));
    assert!(env.events.is_empty());
}

#[test]
fn the_expiry_is_refused_before_the_jurisdiction() {
    let (mut client, admin) = setup();
    assert_eq!(approve(&mut client, 50, admin, account(2), "USA", 1).0, Err(Error::InvalidExpiry));
    assert_eq!(
        approve(&mut client, 50, admin, account(2), "USA", 0).0,
        Err(Error::InvalidJurisdiction)
    );
}

#[test]
fn suspending_or_removing_needs_a_record() {
    let (mut client, admin) = setup();
    assert_eq!(
        at(&mut client, 10, |c, env| c.suspend(env, admin, account(2))).0,
        Err(Error::RecordNotFound)
    );
    assert_eq!(
        at(&mut client, 10, |c, env| c.remove(env, admin, account(2))).0,
        Err(Error::RecordNotFound)
    );
}

#[test]
fn a_removal_leaves_nothing_and_keeps_the_order() {
    let (mut client, admin) = setup();
    for n in 2..=5 {
        approve(&mut client, 10, admin, account(n), "US", 0).0.unwrap();
    }
    let (result, env) = at(&mut client, 10, |c, env| c.remove(env, admin, account(3)));
    assert_eq!(result, Ok(()));
    assert_eq!(env.events, vec![Event::Removed { address: account(3) }]);
    assert_eq!(client.get_record(account(3)), None);
    assert!(!allowed(&mut client, 10, account(3)));
    assert_eq!(client.get_allowlist(), vec![account(2), account(4), account(5)]);
    // Approved again, it comes last.
    approve(&mut client, 10, admin, account(3), "US", 0).0.unwrap();
    assert_eq!(client.get_allowlist(), vec![account(2), account(4), account(5), account(3)]);
}

#[test]
fn a_blocked_jurisdiction_shuts_its_addresses_out() {
    let (mut client, admin) = setup();
    approve(&mut client, 10, admin, account(2), "US", 0).0.unwrap();
    approve(&mut client, 10, admin, account(3), "DE", 0).0.unwrap();
    let (result, env) =
        at(&mut client, 10, |c, env| c.block_jurisdiction(env, admin, &text(" u s ")));
    assert_eq!(result, Ok(()));
    assert_eq!(env.events, vec![Event::BlockJur { jurisdiction: code("US") }]);
    assert_eq!(client.is_jurisdiction_blocked(&text("us")), Ok(true));
    assert_eq!(client.is_jurisdiction_blocked(&text("DE")), Ok(false));
    assert!(!allowed(&mut client, 10, account(2)));
    assert!(allowed(&mut client, 10, account(3)));
    let (result, env) =
        at(&mut client, 10, |c, env| c.unblock_jurisdiction(env, admin, &text("Us")));
    assert_eq!(result, Ok(()));
    assert_eq!(env.events, vec![Event::UnblkJur { jurisdiction: code("US") }]);
    assert_eq!(client.is_jurisdiction_blocked(&text("US")), Ok(false));
    assert!(allowed(&mut client, 10, account(2)));
}

#[test]
fn jurisdictions_are_two_letters() {
    for good in ["US", "us", "uS", " us", "u s ", "  U   S"] {
        assert_eq!(normalize_jurisdiction(&text(good)), Some(code("US")));
    }
    assert_eq!(normalize_jurisdiction(&text("az")), Some(code("AZ")));
    assert_eq!(normalize_jurisdiction(&text("ZA")), Some(code("ZA")));
    for bad in ["", " ", "U", "USA", "U1", "1U", "U\tS", "U-S", "@A", "[A", "`a", "{a", "U S A"] {
        assert_eq!(normalize_jurisdiction(&text(bad)), None);
    }
    assert_eq!(normalize_jurisdiction(&vec![0xc3, 0x9c]), None);
    let (mut client, admin) = setup();
    assert_eq!(
        client.is_jurisdiction_blocked(&text("USA")),
        Err(Abort::Error(Error::InvalidJurisdiction))
    );
    assert_eq!(
        at(&mut client, 10, |c, env| c.block_jurisdiction(env, admin, &text("U"))).0,
        Err(Error::InvalidJurisdiction)
    );
    assert_eq!(
        at(&mut client, 10, |c, env| c.unblock_jurisdiction(env, admin, &text("U"))).0,
        Err(Error::InvalidJurisdiction)
    );
}

#[test]
fn pages_roll_over_and_are_not_repacked() {
    let (mut client, admin) = setup();
    let full = u128::from(ALLOWLIST_PAGE_SIZE);
    let total = full + 5;
    for n in 0..total {
        approve(&mut client, 10, admin, account(100 + n), "US", 0).0.unwrap();
    }
    let everybody: Vec<Address> = (0..total).map(|n| account(100 + n)).collect();
    assert_eq!(client.get_allowlist(), everybody);
    assert_eq!((client.page, client.page_len), (1, 5));
    assert_eq!(client.pages.get(0).map(|p| p.len()), Some(200));
    assert_eq!(client.pages.get(1).map(|p| p.len()), Some(5));
    // A gap on the first page is left, and the next address goes on the last.
    at(&mut client, 10, |c, env| c.remove(env, admin, account(100))).0.unwrap();
    approve(&mut client, 10, admin, account(99), "US", 0).0.unwrap();
    assert_eq!((client.page, client.page_len), (1, 6));
    assert_eq!(client.pages.get(0).map(|p| p.len()), Some(199));
    let list = client.get_allowlist();
    assert_eq!(list.len() as u128, total);
    assert_eq!(list[0], account(101));
    assert_eq!(list[list.len() - 1], account(99));
}

#[test]
fn pruning_takes_away_what_has_run_out() {
    let (mut client, admin) = setup();
    approve(&mut client, 10, admin, account(2), "US", 100).0.unwrap();
    approve(&mut client, 10, admin, account(3), "US", 0).0.unwrap();
    approve(&mut client, 10, admin, account(4), "DE", 200).0.unwrap();
    approve(&mut client, 10, admin, account(5), "DE", 50).0.unwrap();
    at(&mut client, 10, |c, env| c.suspend(env, admin, account(5))).0.unwrap();
    let before: Vec<bool> = (2..=5).map(|n| allowed(&mut client, 100, account(n))).collect();
    let (result, env) = at(&mut client, 100, |c, env| c.prune_expired(env, admin));
    assert_eq!(result, Ok(()));
    assert_eq!(
        env.events,
        vec![
            Event::Expired { address: account(2), expires_at: 100 },
            Event::Expired { address: account(5), expires_at: 50 },
        ]
    );
    assert_eq!(env.extended, vec![Extension::Instance]);
    assert_eq!(client.get_allowlist(), vec![account(3), account(4)]);
    assert_eq!(client.get_record(account(2)), None);
    assert_eq!(client.get_record(account(5)), None);
    let after: Vec<bool> = (2..=5).map(|n| allowed(&mut client, 100, account(n))).collect();
    assert_eq!(before, after);
    assert_eq!(after, vec![false, true, true, false]);
    // Nothing is left to prune.
    let (_, env) = at(&mut client, 100, |c, env| c.prune_expired(env, admin));
    assert!(env.events.is_empty());
    assert_eq!(client.get_allowlist(), vec![account(3), account(4)]);
    // A pruned address starts anew.
    let (_, env) = approve(&mut client, 101, admin, account(2), "KE", 0);
    assert_eq!(
        env.events,
        vec![Event::Approved {
            address: account(2),
            jurisdiction: code("KE"),
            expires_at: 0,
        }]
    );
    assert_eq!(client.get_allowlist(), vec![account(3), account(4), account(2)]);
}

#[test]
fn pruning_reaches_every_page() {
    let (mut client, admin) = setup();
    for n in 0..450u128 {
        let expires_at = if n % 3 == 0 { 60 } else { 0 };
        approve(&mut client, 10, admin, account(1_000 + n), "US", expires_at).0.unwrap();
    }
    assert_eq!(client.page, 2);
    let (_, env) = at(&mut client, 60, |c, env| c.prune_expired(env, admin));
    assert_eq!(env.events.len(), 150);
    let rest: Vec<Address> =
        (0..450u128).filter(|n| n % 3 != 0).map(|n| account(1_000 + n)).collect();
    assert_eq!(client.get_allowlist(), rest);
}

#[test]
fn a_compliance_call_without_signature_changes_nothing() {
    let (mut client, admin) = setup();
    let mut env = Invocation::new(this(), 10);
    assert_eq!(
        client.add_to_allowlist(&mut env, admin, account(2), &text("US"), 0),
        Err(Abort::Unsigned(admin))
    );
    assert_eq!(client.prune_expired(&mut env, admin), Err(Abort::Unsigned(admin)));
    assert!(env.events.is_empty() && env.extended.is_empty());
    assert!(client.get_allowlist().is_empty());
}

#[test]
fn compliance_admin_is_handed_over_in_two_steps() {
    let (mut client, admin) = setup();
    let successor = account(7);
    let other = account(8);
    assert_eq!(
        at(&mut client, 10, |c, env| c.accept_admin(env, successor)).0,
        Err(Error::NoPendingAdmin)
    );
    assert_eq!(
        at(&mut client, 10, |c, env| c.cancel_admin_proposal(env, admin)).0,
        Err(Error::NoPendingAdmin)
    );
    assert_eq!(
        at(&mut client, 10, |c, env| c.propose_admin(env, other, other)).0,
        Err(Error::Unauthorized)
    );
    // A second proposal takes the place of the first.
    at(&mut client, 10, |c, env| c.propose_admin(env, admin, other)).0.unwrap();
    at(&mut client, 10, |c, env| c.propose_admin(env, admin, successor)).0.unwrap();
    assert_eq!(client.get_pending_admin(), Some(successor));
    assert_eq!(client.get_admin(), Ok(admin));
    assert_eq!(
        at(&mut client, 10, |c, env| c.accept_admin(env, other)).0,
        Err(Error::Unauthorized)
    );
    assert_eq!(
        at(&mut client, 10, |c, env| c.cancel_admin_proposal(env, other)).0,
        Err(Error::Unauthorized)
    );
    let (result, env) = at(&mut client, 10, |c, env| c.accept_admin(env, successor));
    assert_eq!(result, Ok(()));
    assert_eq!(
        env.events,
        vec![Event::SetAdmin { old_admin: admin, new_admin: successor }]
    );
    assert_eq!(client.get_admin(), Ok(successor));
    assert_eq!(client.get_pending_admin(), None);
    assert_eq!(approve(&mut client, 10, admin, account(2), "US", 0).0, Err(Error::Unauthorized));
    assert_eq!(approve(&mut client, 10, successor, account(2), "US", 0).0, Ok(()));
}

#[test]
fn compliance_error_codes_are_stable() {
    let codes: Vec<u32> = [
        Error::AlreadyInitialized,
        Error::NotInitialized,
        Error::RecordNotFound,
        Error::InvalidExpiry,
        Error::Unauthorized,
        Error::InvalidJurisdiction,
        Error::NoPendingAdmin,
    ]
    .iter()
    .map(|e| e.code())
    .collect();
    assert_eq!(codes, vec![1, 2, 3, 4, 5, 6, 7]);
}

#[test]
fn a_question_needs_one_record_and_one_mark() {
    let (mut whole, admin) = setup();
    approve(&mut whole, 10, admin, account(2), "US", 0).0.unwrap();
    approve(&mut whole, 10, admin, account(3), "KE", 0).0.unwrap();
    at(&mut whole, 10, |c, env| c.block_jurisdiction(env, admin, &text("KE"))).0.unwrap();
    for n in 2..=4 {
        let mut part = ComplianceContract::new();
        if let Some(record) = whole.get_record(account(n)) {
            part.records.set(account(n), record);
            if let Some(blocked) = whole.blocked.get(record.jurisdiction) {
                part.blocked.set(record.jurisdiction, *blocked);
            }
        }
        assert_eq!(allowed(&mut part, 10, account(n)), allowed(&mut whole, 10, account(n)));
    }
    assert!(allowed(&mut whole, 10, account(2)) && !allowed(&mut whole, 10, account(3)));
}
