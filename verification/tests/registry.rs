use rwa_toolkit::address::{Address, AddressKind};
use rwa_toolkit::invocation::{Extension, Invocation};
use rwa_toolkit::registry::{
    page_bounds, parse_asset_type, Abort, AssetEntry, AssetType, Call, DataKey, Error, Event,
    RegistryContract, VERSION,
};

fn account(n: u128) -> Address {
    Address { kind: AddressKind::Account, hi: 7, lo: n }
}

fn token(n: u128) -> Address {
    Address { kind: AddressKind::Contract, hi: 7, lo: n }
}

fn text(s: &str) -> Vec<u8> {
    s.as_bytes().to_vec()
}

const SEQUENCE: u32 = 1_234;

/// Makes a call in which everybody signs who is asked to.
fn signed<T>(
    client: &mut RegistryContract,
    f: impl Fn(&mut RegistryContract, &mut Call) -> Result<T, Abort>,
) -> (Result<T, Error>, Call) {
    let mut env = Invocation::new(token(1_000), SEQUENCE);
    loop {
        match f(client, &mut env) {
            Ok(v) => return (Ok(v), env),
            Err(Abort::Unsigned(who)) => env.authorize(who),
            Err(Abort::Error(e)) => return (Err(e), env),
        }
    }
}

/// The same, with a panic that carries the error code where the call fails.
fn must<T>(
    client: &mut RegistryContract,
    f: impl Fn(&mut RegistryContract, &mut Call) -> Result<T, Abort>,
) -> T {
    match signed(client, f).0 {
        Ok(v) => v,
        Err(e) => panic!("Error(Contract, #{})", e.code()),
    }
}

fn setup() -> (RegistryContract, Address) {
    let mut client = RegistryContract::new();
    let admin = account(1);
    must(&mut client, |c, env| c.initialize(env, admin));
    (client, admin)
}

fn register(client: &mut RegistryContract, issuer: Address, kind: &str, valuation: i128) -> u64 {
    must(client, |c, env| {
        c.register_asset(env, issuer, token(50), text("Asset"), text(kind), valuation)
    })
}

fn get_asset(client: &mut RegistryContract, id: u64) -> AssetEntry {
    must(client, |c, env| c.get_asset(env, id))
}

fn try_get_asset(client: &mut RegistryContract, id: u64) -> Result<AssetEntry, Error> {
    signed(client, |c, env| c.get_asset(env, id)).0
}

fn all_assets(client: &mut RegistryContract, start_id: u64, limit: u32) -> Vec<AssetEntry> {
    must(client, |c, env| Ok(c.get_all_assets(env, start_id, limit)))
}

fn by_issuer(client: &mut RegistryContract, issuer: Address) -> Vec<AssetEntry> {
    must(client, |c, env| Ok(c.get_assets_by_issuer(env, issuer)))
}

fn by_type(client: &mut RegistryContract, kind: &str) -> Vec<AssetEntry> {
    must(client, |c, env| Ok(c.get_assets_by_type(env, &text(kind))))
}

fn deactivate(client: &mut RegistryContract, admin: Address, id: u64) {
    must(client, |c, env| c.deactivate_asset(env, admin, id));
}

fn try_deactivate(client: &mut RegistryContract, admin: Address, id: u64) -> Result<(), Error> {
    signed(client, |c, env| c.deactivate_asset(env, admin, id)).0
}

fn admin_of(client: &RegistryContract) -> Address {
    match client.get_admin() {
        Ok(admin) => admin,
        Err(Abort::Error(e)) => panic!("Error(Contract, #{})", e.code()),
        Err(Abort::Unsigned(_)) => unreachable!(),
    }
}

fn propose(client: &mut RegistryContract, admin: Address, successor: Address) -> Result<(), Error> {
    signed(client, |c, env| c.propose_admin(env, admin, successor)).0
}

fn cancel(client: &mut RegistryContract, admin: Address) -> Result<(), Error> {
    signed(client, |c, env| c.cancel_admin_proposal(env, admin)).0
}

fn accept(client: &mut RegistryContract, successor: Address) -> Result<(), Error> {
    signed(client, |c, env| c.accept_admin(env, successor)).0
}

#[test]
fn test_version() {
    let (_client, _admin) = setup();
    assert_eq!(RegistryContract::version(), VERSION);
    assert_eq!(VERSION, 1);
}

#[test]
fn test_initialize_admin() {
    let (client, admin) = setup();
    assert_eq!(admin_of(&client), admin);
    assert_eq!(client.asset_count(), 0);
    assert_eq!(client.total_value_locked(), 0);
}

#[test]
#[should_panic(expected = "Error(Contract, #2)")]
fn test_get_admin_before_init_panics_not_initialized() {
    let client = RegistryContract::new();
    admin_of(&client);
}

#[test]
#[should_panic(expected = "Error(Contract, #1)")]
fn test_double_init() {
    let (mut client, _admin) = setup();
    must(&mut client, |c, env| c.initialize(env, account(2)));
}

#[test]
#[should_panic(expected = "Error(Contract, #2)")]
fn test_register_before_init_panics_not_initialized() {
    let mut client = RegistryContract::new();
    must(&mut client, |c, env| {
        c.register_asset(env, account(2), token(3), text("Asset"), text("real_estate"), 100)
    });
}

#[test]
fn test_register_and_get_asset() {
    let (mut client, _admin) = setup();
    let issuer = account(2);
    let id = register(&mut client, issuer, "real_estate", 10_000);
    assert_eq!(id, 1);
    let entry = get_asset(&mut client, id);
    assert_eq!(entry.issuer, issuer);
    assert_eq!(entry.valuation, 10_000);
    assert!(entry.active);
}

#[test]
fn test_ids_increment() {
    let (mut client, _admin) = setup();
    let issuer = account(2);
    let a = register(&mut client, issuer, "invoice", 1);
    let b = register(&mut client, issuer, "invoice", 1);
    let c = register(&mut client, issuer, "invoice", 1);
    assert_eq!(a, 1);
    assert_eq!(b, 2);
    assert_eq!(c, 3);
    assert_eq!(client.asset_count(), 3);
}

#[test]
fn prop_active_count_matches_active_entries() {
    let mut state: u64 = 0x9e37_79b9_7f4a_7c15;
    let mut next = move || {
        state ^= state << 13;
        state ^= state >> 7;
        state ^= state << 17;
        state
    };
    for round in 0..60u64 {
        let (mut client, admin) = setup();
        let mut active_ids: Vec<u64> = Vec::new();
        for step in 0..(1 + round % 19) {
            let op = (next() as u8, next() as u8);
            if active_ids.is_empty() || op.0 % 2 == 0 {
                let issuer = account(100 + u128::from(step));
                let id = register(&mut client, issuer, "real_estate", 1_000);
                active_ids.push(id);
            } else {
                let idx = (op.1 as usize) % active_ids.len();
                let id = active_ids[idx];
                deactivate(&mut client, admin, id);
                active_ids.retain(|active_id| *active_id != id);
            }
            let active_in_registry = all_assets(&mut client, 0, u32::MAX)
                .iter()
                .filter(|entry| entry.active)
                .count() as u64;
            assert_eq!(client.active_count(), active_in_registry);
            assert_eq!(client.active_count(), active_ids.len() as u64);
            assert_eq!(client.total_value_locked(), 1_000 * active_ids.len() as i128);
        }
    }
}

#[test]
#[should_panic(expected = "Error(Contract, #4)")]
fn test_get_missing_asset() {
    let (mut client, _admin) = setup();
    get_asset(&mut client, 999);
}

#[test]
fn test_get_assets_by_issuer() {
    let (mut client, _admin) = setup();
    let alice = account(2);
    let bob = account(3);
    register(&mut client, alice, "real_estate", 5);
    register(&mut client, alice, "commodity", 5);
    register(&mut client, bob, "invoice", 5);
    assert_eq!(by_issuer(&mut client, alice).len(), 2);
    assert_eq!(by_issuer(&mut client, bob).len(), 1);
}

#[test]
fn test_get_assets_by_type() {
    let (mut client, _admin) = setup();
    let issuer = account(2);
    register(&mut client, issuer, "real_estate", 5);
    register(&mut client, issuer, "real_estate", 5);
    register(&mut client, issuer, "commodity", 5);
    assert_eq!(by_type(&mut client, "real_estate").len(), 2);
    assert_eq!(by_type(&mut client, "commodity").len(), 1);
}

#[test]
fn test_get_all_and_tvl() {
    let (mut client, _admin) = setup();
    let issuer = account(2);
    register(&mut client, issuer, "real_estate", 100);
    register(&mut client, issuer, "invoice", 250);
    assert_eq!(all_assets(&mut client, 0, 2).len(), 2);
    assert_eq!(client.total_value_locked(), 350);
}

#[test]
fn test_get_all_assets_pagination_edge_cases() {
    let (mut client, _admin) = setup();
    let issuer = account(2);
    register(&mut client, issuer, "real_estate", 100);
    register(&mut client, issuer, "invoice", 250);
    register(&mut client, issuer, "commodity", 300);

    // A start of 0 counts as 1.
    let result = all_assets(&mut client, 0, 10);
    assert_eq!(result.len(), 3);

    // A limit of 0 gives an empty page.
    let result = all_assets(&mut client, 1, 0);
    assert_eq!(result.len(), 0);

    // A start past the last id gives an empty page.
    let result = all_assets(&mut client, 99, 10);
    assert_eq!(result.len(), 0);

    // A limit past the last id is cut off there.
    let result = all_assets(&mut client, 2, 1000);
    assert_eq!(result.len(), 2);

    // Ordinary pages.
    let result = all_assets(&mut client, 1, 2);
    assert_eq!(result.len(), 2);
    let result = all_assets(&mut client, 3, 2);
    assert_eq!(result.len(), 1);
}

#[test]
fn test_deactivate_excludes_from_tvl() {
    let (mut client, admin) = setup();
    let issuer = account(2);
    let id = register(&mut client, issuer, "real_estate", 100);
    register(&mut client, issuer, "invoice", 250);
    assert_eq!(client.total_value_locked(), 350);
    deactivate(&mut client, admin, id);
    assert!(!get_asset(&mut client, id).active);
    assert_eq!(client.total_value_locked(), 250);
}

#[test]
fn test_tvl_sums_only_active() {
    let (mut client, admin) = setup();
    assert_eq!(client.total_value_locked(), 0);

    let issuer = account(2);
    let a = register(&mut client, issuer, "real_estate", 100);
    let b = register(&mut client, issuer, "invoice", 250);
    let c = register(&mut client, issuer, "commodity", 40);
    assert_eq!(client.total_value_locked(), 390);

    deactivate(&mut client, admin, a);
    assert_eq!(client.total_value_locked(), 290);

    deactivate(&mut client, admin, c);
    assert_eq!(client.total_value_locked(), 250);

    deactivate(&mut client, admin, b);
    assert_eq!(client.total_value_locked(), 0);
}

#[test]
#[should_panic(expected = "Error(Contract, #3)")]
fn test_deactivate_requires_admin() {
    let (mut client, _admin) = setup();
    let id = register(&mut client, account(2), "real_estate", 100);
    let impostor = account(3);
    deactivate(&mut client, impostor, id);
}

#[test]
fn test_active_count_excludes_deactivated() {
    let (mut client, admin) = setup();
    let issuer = account(2);
    let a = register(&mut client, issuer, "real_estate", 100);
    register(&mut client, issuer, "invoice", 250);
    assert_eq!(client.active_count(), 2);
    assert_eq!(client.asset_count(), 2);
    deactivate(&mut client, admin, a);
    assert_eq!(client.active_count(), 1);
    assert_eq!(client.asset_count(), 2);
}

#[test]
#[should_panic(expected = "Error(Contract, #5)")]
fn test_negative_valuation_rejected() {
    let (mut client, _admin) = setup();
    register(&mut client, account(2), "real_estate", -1);
}

#[test]
#[should_panic(expected = "Error(Contract, #7)")]
fn test_empty_name_rejected() {
    let (mut client, _admin) = setup();
    must(&mut client, |c, env| {
        c.register_asset(env, account(2), token(3), text(""), text("real_estate"), 100)
    });
}

#[test]
#[should_panic(expected = "Error(Contract, #7)")]
fn test_invalid_asset_type_rejected() {
    let (mut client, _admin) = setup();
    must(&mut client, |c, env| {
        c.register_asset(env, account(2), token(3), text("My Asset"), text("garbage"), 100)
    });
}

#[test]
fn test_asset_ids_increment_monotonically_and_are_never_reused() {
    let (mut client, admin) = setup();
    let issuer = account(2);
    let id1 = register(&mut client, issuer, "real_estate", 1_000);
    let id2 = register(&mut client, issuer, "invoice", 2_000);
    let id3 = register(&mut client, issuer, "commodity", 3_000);
    assert_eq!(id1, 1);
    assert_eq!(id2, 2);
    assert_eq!(id3, 3);

    deactivate(&mut client, admin, id2);

    let id4 = register(&mut client, issuer, "bond", 4_000);
    assert_eq!(id4, 4);
    assert_ne!(id4, id2);
}

#[test]
fn test_get_asset_on_unknown_id_fails_asset_not_found() {
    let (mut client, _admin) = setup();
    register(&mut client, account(2), "real_estate", 1_000);

    assert_eq!(try_get_asset(&mut client, 0), Err(Error::AssetNotFound));
    assert_eq!(try_get_asset(&mut client, 2), Err(Error::AssetNotFound));
}

#[test]
fn test_get_assets_by_issuer_and_by_type_return_empty_vec_not_error() {
    let (mut client, _admin) = setup();
    let unknown_issuer = account(2);

    assert_eq!(by_issuer(&mut client, unknown_issuer).len(), 0);
    assert_eq!(by_type(&mut client, "fund").len(), 0);
}

#[test]
fn test_deactivate_asset_on_unknown_id_fails_and_active_count_unchanged() {
    let (mut client, admin) = setup();
    register(&mut client, account(2), "real_estate", 1_000);
    assert_eq!(client.active_count(), 1);

    assert_eq!(try_deactivate(&mut client, admin, 99), Err(Error::AssetNotFound));
    assert_eq!(client.active_count(), 1);
}

#[test]
fn test_deactivate_already_inactive_asset_is_noop() {
    let (mut client, admin) = setup();
    let id = register(&mut client, account(2), "real_estate", 100);
    assert_eq!(client.active_count(), 1);
    assert_eq!(client.total_value_locked(), 100);

    deactivate(&mut client, admin, id);
    assert_eq!(client.active_count(), 0);
    assert_eq!(client.total_value_locked(), 0);
    assert!(!get_asset(&mut client, id).active);

    // Once more: nothing changes and nothing is published.
    let (result, env) = signed(&mut client, |c, env| c.deactivate_asset(env, admin, id));
    assert_eq!(result, Ok(()));
    assert!(env.events.is_empty());
    assert!(env.extended.is_empty());
    assert_eq!(client.active_count(), 0);
    assert_eq!(client.total_value_locked(), 0);
    assert!(!get_asset(&mut client, id).active);
}

#[test]
fn test_propose_accept_admin_moves_role_only_on_acceptance() {
    let (mut client, admin) = setup();
    let successor = account(9);

    assert_eq!(propose(&mut client, admin, successor), Ok(()));
    assert_eq!(admin_of(&client), admin);
    assert_eq!(client.get_pending_admin(), Some(successor));

    assert_eq!(accept(&mut client, successor), Ok(()));
    assert_eq!(admin_of(&client), successor);
    assert_eq!(client.get_pending_admin(), None);

    // The admin before has lost its powers.
    must(&mut client, |c, env| {
        c.register_asset(env, account(2), token(3), text("Asset"), text("real_estate"), 1_000)
    });
    assert_eq!(try_deactivate(&mut client, admin, 1), Err(Error::Unauthorized));
    // The new admin can act.
    deactivate(&mut client, successor, 1);
}

#[test]
fn test_cancel_admin_proposal_by_current_admin() {
    let (mut client, admin) = setup();
    let successor = account(9);

    assert_eq!(propose(&mut client, admin, successor), Ok(()));
    assert_eq!(cancel(&mut client, admin), Ok(()));
    assert_eq!(client.get_pending_admin(), None);

    assert_eq!(accept(&mut client, successor), Err(Error::NoPendingAdmin));
    assert_eq!(admin_of(&client), admin);
}

#[test]
fn test_cancel_admin_proposal_with_nothing_pending_fails() {
    let (mut client, admin) = setup();
    assert_eq!(cancel(&mut client, admin), Err(Error::NoPendingAdmin));
}

#[test]
fn test_non_admin_cannot_propose_admin() {
    let (mut client, _admin) = setup();
    assert_eq!(propose(&mut client, account(8), account(9)), Err(Error::Unauthorized));
}

#[test]
fn test_non_admin_cannot_cancel_admin_proposal() {
    let (mut client, admin) = setup();
    assert_eq!(propose(&mut client, admin, account(9)), Ok(()));
    assert_eq!(cancel(&mut client, account(8)), Err(Error::Unauthorized));
}

#[test]
fn test_only_proposed_successor_can_accept() {
    let (mut client, admin) = setup();
    assert_eq!(propose(&mut client, admin, account(9)), Ok(()));
    assert_eq!(accept(&mut client, account(8)), Err(Error::Unauthorized));
    assert_eq!(admin_of(&client), admin);
}

#[test]
fn test_accept_admin_with_no_pending_proposal_fails() {
    let (mut client, _admin) = setup();
    assert_eq!(accept(&mut client, account(8)), Err(Error::NoPendingAdmin));
}

#[test]
fn registration_stores_the_whole_entry_and_announces_it() {
    let (mut client, _admin) = setup();
    let issuer = account(2);
    let (result, env) = signed(&mut client, |c, env| {
        c.register_asset(env, issuer, token(3), text("Tower"), text("real_estate"), 42)
    });
    assert_eq!(result, Ok(1));
    assert_eq!(
        get_asset(&mut client, 1),
        AssetEntry {
            id: 1,
            token_contract: token(3),
            issuer,
            name: text("Tower"),
            asset_type: text("real_estate"),
            valuation: 42,
            created_at: SEQUENCE,
            active: true,
        }
    );
    assert_eq!(env.events, vec![Event::Register { issuer, id: 1 }]);
    assert_eq!(
        env.extended,
        vec![
            Extension::Entry(DataKey::Asset(1)),
            Extension::Entry(DataKey::IssuerIndex(issuer)),
            Extension::Entry(DataKey::TypeIndex(AssetType::RealEstate)),
            Extension::Instance,
        ]
    );
    assert!(env.transfers.is_empty());
}

#[test]
fn a_call_that_lacks_a_signature_changes_nothing() {
    let (mut client, admin) = setup();
    let id = register(&mut client, account(2), "bond", 10);
    let mut env = Invocation::new(token(1_000), SEQUENCE);
    assert_eq!(
        client.deactivate_asset(&mut env, admin, id),
        Err(Abort::Unsigned(admin))
    );
    assert_eq!(
        client.register_asset(&mut env, account(2), token(3), text("A"), text("bond"), 1),
        Err(Abort::Unsigned(account(2)))
    );
    assert_eq!(client.propose_admin(&mut env, admin, account(3)), Err(Abort::Unsigned(admin)));
    assert_eq!(client.accept_admin(&mut env, account(3)), Err(Abort::Unsigned(account(3))));
    assert!(env.events.is_empty() && env.extended.is_empty() && env.authorized.is_empty());
    assert_eq!(client.active_count(), 1);
    assert_eq!(client.asset_count(), 1);
    assert_eq!(client.get_pending_admin(), None);
}

#[test]
fn refusals_come_in_order() {
    let mut blank = RegistryContract::new();
    let mut env = Invocation::new(token(1_000), SEQUENCE);
    // Not initialized comes before the missing signature and the bad valuation.
    assert_eq!(
        blank.register_asset(&mut env, account(2), token(3), text(""), text("x"), -1),
        Err(Abort::Error(Error::NotInitialized))
    );
    let (mut client, _admin) = setup();
    env.authorize(account(2));
    // The bad valuation comes before the bad texts.
    assert_eq!(
        client.register_asset(&mut env, account(2), token(3), text(""), text("x"), -1),
        Err(Abort::Error(Error::InvalidValuation))
    );
}

#[test]
fn valuations_that_do_not_sum_up_are_refused() {
    let (mut client, admin) = setup();
    register(&mut client, account(2), "fund", i128::MAX);
    let (result, env) = signed(&mut client, |c, env| {
        c.register_asset(env, account(2), token(3), text("A"), text("fund"), 1)
    });
    assert_eq!(result, Err(Error::Overflow));
    assert!(env.events.is_empty());
    assert_eq!(client.asset_count(), 1);
    assert_eq!(client.total_value_locked(), i128::MAX);
    // A valuation of 0 still fits, and deactivation makes room again.
    assert_eq!(register(&mut client, account(2), "fund", 0), 2);
    deactivate(&mut client, admin, 1);
    assert_eq!(register(&mut client, account(2), "fund", 1), 3);
    assert_eq!(client.total_value_locked(), 1);
}

#[test]
fn asset_types_are_compared_byte_for_byte() {
    assert_eq!(parse_asset_type(&text("real_estate")), Some(AssetType::RealEstate));
    assert_eq!(parse_asset_type(&text("invoice")), Some(AssetType::Invoice));
    assert_eq!(parse_asset_type(&text("commodity")), Some(AssetType::Commodity));
    assert_eq!(parse_asset_type(&text("bond")), Some(AssetType::Bond));
    assert_eq!(parse_asset_type(&text("equity")), Some(AssetType::Equity));
    assert_eq!(parse_asset_type(&text("fund")), Some(AssetType::Fund));
    for t in [
        AssetType::RealEstate,
        AssetType::Invoice,
        AssetType::Commodity,
        AssetType::Bond,
        AssetType::Equity,
        AssetType::Fund,
    ] {
        assert_eq!(parse_asset_type(&text(t.name())), Some(t));
    }
    for bad in ["", "Bond", "bond ", " bond", "bonds", "real estate", "fun", "REAL_ESTATE"] {
        assert_eq!(parse_asset_type(&text(bad)), None);
    }
}

#[test]
fn indexes_list_in_order_and_keep_deactivated_assets() {
    let (mut client, admin) = setup();
    let alice = account(2);
    let bob = account(3);
    register(&mut client, alice, "bond", 1);
    register(&mut client, bob, "bond", 2);
    register(&mut client, alice, "equity", 3);
    register(&mut client, alice, "bond", 4);
    deactivate(&mut client, admin, 1);
    let ids = |entries: Vec<AssetEntry>| entries.iter().map(|e| e.id).collect::<Vec<u64>>();
    assert_eq!(ids(by_issuer(&mut client, alice)), vec![1, 3, 4]);
    assert_eq!(ids(by_issuer(&mut client, bob)), vec![2]);
    assert_eq!(ids(by_type(&mut client, "bond")), vec![1, 2, 4]);
    assert_eq!(ids(by_type(&mut client, "equity")), vec![3]);
    assert_eq!(by_type(&mut client, "nonsense").len(), 0);
    assert!(!by_issuer(&mut client, alice)[0].active);
}

#[test]
fn pages_tile_the_registry() {
    let (mut client, _admin) = setup();
    for n in 1..=7 {
        register(&mut client, account(2), "bond", n);
    }
    let whole = all_assets(&mut client, 1, 7);
    let mut tiled = all_assets(&mut client, 1, 3);
    tiled.extend(all_assets(&mut client, 4, 3));
    tiled.extend(all_assets(&mut client, 7, 3));
    assert_eq!(tiled, whole);
    assert_eq!(page_bounds(0, 5, 7), (1, 6));
    assert_eq!(page_bounds(6, 5, 7), (6, 8));
    assert_eq!(page_bounds(u64::MAX, u32::MAX, 7), (u64::MAX, 8));
}

#[test]
fn reads_extend_what_they_read() {
    let (mut client, _admin) = setup();
    let issuer = account(2);
    register(&mut client, issuer, "bond", 1);
    register(&mut client, issuer, "bond", 2);
    let (_, env) = signed(&mut client, |c, env| Ok(c.get_assets_by_issuer(env, issuer)));
    assert_eq!(
        env.extended,
        vec![
            Extension::Entry(DataKey::IssuerIndex(issuer)),
            Extension::Entry(DataKey::Asset(1)),
            Extension::Entry(DataKey::Asset(2)),
        ]
    );
    let (_, env) = signed(&mut client, |c, env| Ok(c.get_assets_by_issuer(env, account(77))));
    assert!(env.extended.is_empty());
    let (_, env) = signed(&mut client, |c, env| Ok(c.get_all_assets(env, 2, 5)));
    assert_eq!(env.extended, vec![Extension::Entry(DataKey::Asset(2))]);
}

#[test]
fn handover_is_announced() {
    let (mut client, admin) = setup();
    let successor = account(9);
    let (_, env) = signed(&mut client, |c, env| c.propose_admin(env, admin, successor));
    assert_eq!(env.events, vec![Event::Proposed { admin, new_admin: successor }]);
    let (_, env) = signed(&mut client, |c, env| c.cancel_admin_proposal(env, admin));
    assert_eq!(env.events, vec![Event::Cancelled { admin }]);
    assert_eq!(propose(&mut client, admin, account(8)), Ok(()));
    // A second proposal takes the place of the first.
    assert_eq!(propose(&mut client, admin, successor), Ok(()));
    assert_eq!(accept(&mut client, account(8)), Err(Error::Unauthorized));
    let (_, env) = signed(&mut client, |c, env| c.accept_admin(env, successor));
    assert_eq!(
        env.events,
        vec![Event::SetAdmin { old_admin: admin, new_admin: successor }]
    );
    assert_eq!(env.extended, vec![Extension::Instance]);
}

#[test]
fn error_codes_are_stable() {
    let codes: Vec<u32> = [
        Error::AlreadyInitialized,
        Error::NotInitialized,
        Error::Unauthorized,
        Error::AssetNotFound,
        Error::InvalidValuation,
        Error::Overflow,
        Error::InvalidInput,
        Error::NoPendingAdmin,
    ]
    .iter()
    .map(|e| e.code())
    .collect();
    assert_eq!(codes, vec![1, 2, 3, 4, 5, 6, 7, 8]);
}

#[test]
fn a_registration_needs_its_own_lists_only() {
    let (mut whole, _admin) = setup();
    register(&mut whole, account(2), "bond", 5);
    register(&mut whole, account(3), "fund", 7);
    let mut part = RegistryContract::new();
    part.role = whole.role;
    part.counter = whole.counter;
    part.active_count = whole.active_count;
    part.total_valuation = whole.total_valuation;
    part.by_issuer.set(account(2), whole.by_issuer.get(account(2)).unwrap().clone());
    part.by_type.set(AssetType::Fund, whole.by_type.get(AssetType::Fund).unwrap().clone());
    assert_eq!(register(&mut part, account(2), "fund", 9), 3);
    assert_eq!(register(&mut whole, account(2), "fund", 9), 3);
    assert_eq!(part.assets.get(3), whole.assets.get(3));
    assert_eq!(part.by_issuer.get(account(2)), whole.by_issuer.get(account(2)));
    assert_eq!(part.by_type.get(AssetType::Fund), whole.by_type.get(AssetType::Fund));
    assert_eq!(part.total_value_locked(), whole.total_value_locked());
    assert_eq!(whole.by_issuer.get(account(3)), Some(&vec![2]));
    assert_eq!(whole.by_type.get(AssetType::Bond), Some(&vec![1]));
}
