use rwa_toolkit::address::{Address, AddressKind};
use rwa_toolkit::asset_token::{
    Abort, AssetMetadata, AssetTokenContract, Call, DataKey, Error, Event, VERSION,
};
use rwa_toolkit::compliance::{
    Abort as ComplianceAbort, Call as ComplianceCall, ComplianceContract, Error as ComplianceError,
};
use rwa_toolkit::invocation::{Extension, Invocation};

fn account(n: u128) -> Address {
    Address { kind: AddressKind::Account, hi: 1, lo: n }
}

fn contract(n: u128) -> Address {
    Address { kind: AddressKind::Contract, hi: 1, lo: n }
}

fn text(s: &str) -> Vec<u8> {
    s.as_bytes().to_vec()
}

fn officer() -> Address {
    account(900)
}

fn issuer() -> Address {
    account(1)
}

fn rules_address() -> Address {
    contract(20)
}

/// A token and the compliance contract that it asks.
struct World {
    token: AssetTokenContract,
    rules: ComplianceContract,
    sequence: u32,
}

fn failed<T>(e: Error) -> Result<T, Abort> {
    Err(Abort::Error(e))
}

/// Makes a compliance call in which everybody signs who is asked to.
fn comply<T>(
    world: &mut World,
    f: impl Fn(&mut ComplianceContract, &mut ComplianceCall) -> Result<T, ComplianceAbort>,
) -> Result<T, ComplianceAbort> {
    let mut env = Invocation::new(rules_address(), world.sequence);
    loop {
        match f(&mut world.rules, &mut env) {
            Err(ComplianceAbort::Unsigned(who)) => env.authorize(who),
            other => return other,
        }
    }
}

/// Makes a token call in which everybody signs who is asked to and the
/// compliance contract answers what it is asked.
fn act<T>(
    world: &mut World,
    f: impl Fn(&mut AssetTokenContract, &mut Call, &Vec<bool>) -> Result<T, Abort>,
) -> (Result<T, Abort>, Call) {
    let mut env = Invocation::new(contract(10), world.sequence);
    let mut answers: Vec<bool> = Vec::new();
    loop {
        match f(&mut world.token, &mut env, &answers) {
            Err(Abort::Unsigned(who)) => env.authorize(who),
            Err(Abort::NeedsApproval { compliance, who }) => {
                // Any other contract approves nobody.
                let answer = compliance == rules_address()
                    && comply(world, |c, env| Ok(c.is_allowed(env, who))) == Ok(true);
                answers.push(answer);
            }
            other => return (other, env),
        }
    }
}

fn approve(world: &mut World, who: Address) {
    assert_eq!(
        comply(world, |c, env| c.add_to_allowlist(env, officer(), who, &text("US"), 0)),
        Ok(())
    );
}

fn initialize(world: &mut World, total_supply: i128, valuation: i128) -> (Result<(), Abort>, Call) {
    act(world, |t, env, answers| {
        t.initialize(
            env,
            issuer(),
            text("Tower One"),
            text("TWR"),
            text("real_estate"),
            total_supply,
            2,
            rules_address(),
            text("An office tower"),
            valuation,
            answers,
        )
    })
}

fn blank() -> World {
    let mut world = World {
        token: AssetTokenContract::new(),
        rules: ComplianceContract::new(),
        sequence: 100,
    };
    assert_eq!(comply(&mut world, |c, env| c.initialize(env, officer())), Ok(()));
    world
}

/// A token with a supply of 1000 with the issuer; accounts 2 and 3 are approved.
fn setup() -> World {
    let mut world = blank();
    for n in 1..=3 {
        approve(&mut world, account(n));
    }
    assert_eq!(initialize(&mut world, 1_000, 5_000).0, Ok(()));
    world
}

fn transfer(world: &mut World, from: Address, to: Address, amount: i128) -> (Result<(), Abort>, Call) {
    act(world, |t, env, answers| t.transfer(env, from, to, amount, answers))
}

fn mint(world: &mut World, admin: Address, to: Address, amount: i128) -> (Result<(), Abort>, Call) {
    act(world, |t, env, answers| t.mint(env, admin, to, amount, answers))
}

fn mint_batch(
    world: &mut World,
    admin: Address,
    list: &Vec<(Address, i128)>,
) -> (Result<(), Abort>, Call) {
    act(world, |t, env, answers| t.mint_batch(env, admin, list, answers))
}

fn burn(world: &mut World, from: Address, amount: i128) -> (Result<(), Abort>, Call) {
    act(world, |t, env, answers| t.burn(env, from, amount, answers))
}

fn pause(world: &mut World, caller: Address) -> Result<(), Abort> {
    act(world, |t, env, _| t.pause(env, caller)).0
}

fn unpause(world: &mut World, admin: Address) -> Result<(), Abort> {
    act(world, |t, env, _| t.unpause(env, admin)).0
}

fn set_guardian(world: &mut World, admin: Address, guardian: Option<Address>) -> Result<(), Abort> {
    act(world, |t, env, _| t.set_guardian(env, admin, guardian)).0
}

fn metadata(world: &World) -> AssetMetadata {
    world.token.get_metadata().unwrap()
}

#[test]
fn asset_token_version_is_one() {
    assert_eq!(AssetTokenContract::version(), VERSION);
    assert_eq!(VERSION, 1);
}

#[test]
fn initialization_gives_the_supply_to_the_admin() {
    let mut world = blank();
    assert_eq!(world.token.total_supply(), failed(Error::NotInitialized));
    assert_eq!(world.token.get_metadata(), failed(Error::NotInitialized));
    approve(&mut world, issuer());
    let (result, env) = initialize(&mut world, 1_000, 5_000);
    assert_eq!(result, Ok(()));
    assert_eq!(
        env.events,
        vec![
            Event::Genesis { admin: issuer(), total_supply: 1_000 },
            Event::Mint { to: issuer(), amount: 1_000 },
        ]
    );
    assert_eq!(
        env.extended,
        vec![Extension::Entry(DataKey::Balance(issuer())), Extension::Instance]
    );
    assert_eq!(world.token.balance(issuer()), 1_000);
    assert_eq!(world.token.balance(account(2)), 0);
    assert_eq!(world.token.total_supply(), Ok(1_000));
    assert_eq!(
        metadata(&world),
        AssetMetadata {
            name: text("Tower One"),
            symbol: text("TWR"),
            asset_type: text("real_estate"),
            total_supply: 1_000,
            decimals: 2,
            admin: issuer(),
            compliance_contract: rules_address(),
            asset_description: text("An office tower"),
            valuation: 5_000,
            paused: false,
            guardian: None,
            pending_admin: None,
        }
    );
    assert_eq!(initialize(&mut world, 1, 1).0, failed(Error::AlreadyInitialized));
}

#[test]
fn initialization_checks_its_arguments() {
    let mut world = blank();
    assert_eq!(initialize(&mut world, -1, 0).0, failed(Error::InvalidAmount));
    assert_eq!(initialize(&mut world, 0, -1).0, failed(Error::InvalidAmount));
    // The issuer is not approved yet.
    assert_eq!(initialize(&mut world, 0, 0).0, failed(Error::RecipientNotCompliant));
    approve(&mut world, issuer());
    let fits = [64usize, 16, 32, 256];
    for i in 0..4 {
        for bad in [0usize, fits[i] + 1] {
            let mut lens = fits;
            lens[i] = bad;
            let (result, env) = act(&mut world, |t, env, answers| {
                t.initialize(
                    env,
                    issuer(),
                    vec![b'a'; lens[0]],
                    vec![b'a'; lens[1]],
                    vec![b'a'; lens[2]],
                    7,
                    0,
                    rules_address(),
                    vec![b'a'; lens[3]],
                    0,
                    answers,
                )
            });
            assert_eq!(result, failed(Error::InvalidInput));
            assert!(env.events.is_empty());
        }
    }
    let (result, _) = act(&mut world, |t, env, answers| {
        t.initialize(
            env,
            issuer(),
            vec![b'a'; fits[0]],
            vec![b'a'; fits[1]],
            vec![b'a'; fits[2]],
            0,
            0,
            rules_address(),
            vec![b'a'; fits[3]],
            0,
            answers,
        )
    });
    assert_eq!(result, Ok(()));
}

#[test]
fn a_transfer_moves_the_amount() {
    let mut world = setup();
    let (result, env) = transfer(&mut world, issuer(), account(2), 300);
    assert_eq!(result, Ok(()));
    assert_eq!(
        env.events,
        vec![Event::Transfer {
            from: issuer(),
            to: account(2),
            amount: 300,
            from_balance: 700,
            to_balance: 300,
        }]
    );
    assert_eq!(
        env.extended,
        vec![
            Extension::Entry(DataKey::Balance(issuer())),
            Extension::Entry(DataKey::Balance(account(2))),
            Extension::Instance,
        ]
    );
    assert_eq!(world.token.balance(issuer()), 700);
    assert_eq!(world.token.balance(account(2)), 300);
    assert_eq!(world.token.total_supply(), Ok(1_000));
    assert_eq!(transfer(&mut world, account(2), account(3), 300).0, Ok(()));
    assert_eq!(world.token.balance(account(2)), 0);
    assert_eq!(world.token.balance(account(3)), 300);
}

#[test]
fn a_transfer_to_oneself_moves_nothing() {
    let mut world = setup();
    let (result, env) = transfer(&mut world, issuer(), issuer(), 400);
    assert_eq!(result, Ok(()));
    assert_eq!(
        env.events,
        vec![Event::Transfer {
            from: issuer(),
            to: issuer(),
            amount: 400,
            from_balance: 1_000,
            to_balance: 1_000,
        }]
    );
    assert_eq!(env.extended, vec![Extension::Instance]);
    assert_eq!(world.token.balance(issuer()), 1_000);
    // It must still be covered.
    assert_eq!(
        transfer(&mut world, issuer(), issuer(), 1_001).0,
        failed(Error::InsufficientBalance)
    );
}

#[test]
fn transfers_are_refused_in_order() {
    let mut world = setup();
    let stranger = account(66);
    assert_eq!(transfer(&mut world, issuer(), stranger, 0).0, failed(Error::InvalidAmount));
    assert_eq!(transfer(&mut world, issuer(), stranger, -1).0, failed(Error::InvalidAmount));
    assert_eq!(transfer(&mut world, stranger, account(67), 5).0, failed(Error::SenderNotCompliant));
    assert_eq!(
        transfer(&mut world, issuer(), stranger, 5_000).0,
        failed(Error::RecipientNotCompliant)
    );
    assert_eq!(
        transfer(&mut world, issuer(), account(2), 1_001).0,
        failed(Error::InsufficientBalance)
    );
    let mut uninitialized = blank();
    assert_eq!(
        transfer(&mut uninitialized, issuer(), account(2), 1).0,
        failed(Error::NotInitialized)
    );
    assert_eq!(world.token.balance(issuer()), 1_000);
}

#[test]
fn a_transfer_asks_for_what_it_needs() {
    let mut world = setup();
    let mut env = Invocation::new(contract(10), 100);
    let none: Vec<bool> = vec![];
    assert_eq!(
        world.token.transfer(&mut env, issuer(), account(2), 5, &none),
        Err(Abort::Unsigned(issuer()))
    );
    env.authorize(issuer());
    assert_eq!(
        world.token.transfer(&mut env, issuer(), account(2), 5, &none),
        Err(Abort::NeedsApproval { compliance: rules_address(), who: issuer() })
    );
    assert_eq!(
        world.token.transfer(&mut env, issuer(), account(2), 5, &vec![true]),
        Err(Abort::NeedsApproval { compliance: rules_address(), who: account(2) })
    );
    assert_eq!(
        world.token.transfer(&mut env, issuer(), account(2), 5, &vec![false, true]),
        failed(Error::SenderNotCompliant)
    );
    assert_eq!(
        world.token.transfer(&mut env, issuer(), account(2), 5, &vec![true, false]),
        failed(Error::RecipientNotCompliant)
    );
    assert!(env.events.is_empty() && env.extended.is_empty());
    assert_eq!(world.token.transfer(&mut env, issuer(), account(2), 5, &vec![true, true]), Ok(()));
}

#[test]
fn a_mint_adds_to_balance_and_supply() {
    let mut world = setup();
    let (result, env) = mint(&mut world, issuer(), account(2), 50);
    assert_eq!(result, Ok(()));
    assert_eq!(env.events, vec![Event::Mint { to: account(2), amount: 50 }]);
    assert_eq!(
        env.extended,
        vec![Extension::Entry(DataKey::Balance(account(2))), Extension::Instance]
    );
    assert_eq!(world.token.balance(account(2)), 50);
    assert_eq!(world.token.total_supply(), Ok(1_050));
    assert_eq!(mint(&mut world, issuer(), account(2), 0).0, failed(Error::InvalidAmount));
    assert_eq!(mint(&mut world, issuer(), account(66), 1).0, failed(Error::RecipientNotCompliant));
    assert_eq!(mint(&mut world, account(2), account(2), 1).0, failed(Error::Unauthorized));
    assert_eq!(mint(&mut world, issuer(), account(2), i128::MAX).0, failed(Error::Overflow));
    assert_eq!(world.token.total_supply(), Ok(1_050));
    assert_eq!(mint(&mut world, issuer(), account(3), i128::MAX - 1_050).0, Ok(()));
    assert_eq!(world.token.total_supply(), Ok(i128::MAX));
    assert_eq!(mint(&mut blank(), issuer(), account(2), 1).0, failed(Error::NotInitialized));
}

#[test]
fn a_batch_is_all_or_nothing() {
    let mut world = setup();
    let list = vec![(account(2), 5), (account(3), 7), (account(2), 11)];
    let (result, env) = mint_batch(&mut world, issuer(), &list);
    assert_eq!(result, Ok(()));
    assert_eq!(
        env.events,
        vec![
            Event::Mint { to: account(2), amount: 5 },
            Event::Mint { to: account(3), amount: 7 },
            Event::Mint { to: account(2), amount: 11 },
        ]
    );
    assert_eq!(
        env.extended,
        vec![
            Extension::Entry(DataKey::Balance(account(2))),
            Extension::Entry(DataKey::Balance(account(3))),
            Extension::Entry(DataKey::Balance(account(2))),
            Extension::Instance,
        ]
    );
    assert_eq!(world.token.balance(account(2)), 16);
    assert_eq!(world.token.balance(account(3)), 7);
    assert_eq!(world.token.total_supply(), Ok(1_023));
    let cases = vec![
        (vec![(account(2), 1), (account(66), 1)], Error::RecipientNotCompliant),
        (vec![(account(2), 1), (account(3), 0)], Error::InvalidAmount),
        (vec![(account(2), 1), (account(66), -1)], Error::InvalidAmount),
        (vec![(account(2), 1), (account(3), i128::MAX)], Error::Overflow),
    ];
    for (list, e) in cases {
        let (result, env) = mint_batch(&mut world, issuer(), &list);
        assert_eq!(result, failed(e));
        assert!(env.events.is_empty() && env.extended.is_empty());
        assert_eq!(world.token.balance(account(2)), 16);
        assert_eq!(world.token.total_supply(), Ok(1_023));
    }
    assert_eq!(
        mint_batch(&mut world, account(2), &vec![(account(2), 1)]).0,
        failed(Error::Unauthorized)
    );
    // An empty batch does nothing.
    let (result, env) = mint_batch(&mut world, issuer(), &vec![]);
    assert_eq!(result, Ok(()));
    assert!(env.events.is_empty());
    assert_eq!(env.extended, vec![Extension::Instance]);
}

#[test]
fn a_batch_does_what_its_mints_do() {
    let list = vec![(account(2), 5), (account(3), 7), (account(2), 11)];
    let mut one = setup();
    assert_eq!(mint_batch(&mut one, issuer(), &list).0, Ok(()));
    let mut other = setup();
    for (to, amount) in &list {
        assert_eq!(mint(&mut other, issuer(), *to, *amount).0, Ok(()));
    }
    for n in 1..=3 {
        assert_eq!(one.token.balance(account(n)), other.token.balance(account(n)));
    }
    assert_eq!(metadata(&one), metadata(&other));
    // A batch of one is refused as the mint is.
    for (to, amount) in [(account(66), 1), (account(2), i128::MAX), (account(2), 3)] {
        let single = mint_batch(&mut one, issuer(), &vec![(to, amount)]).0;
        assert_eq!(single, mint(&mut other, issuer(), to, amount).0);
    }
}

#[test]
fn a_burn_takes_from_balance_and_supply() {
    let mut world = setup();
    let (result, env) = burn(&mut world, issuer(), 400);
    assert_eq!(result, Ok(()));
    assert_eq!(env.events, vec![Event::Burn { from: issuer(), amount: 400 }]);
    assert_eq!(
        env.extended,
        vec![Extension::Entry(DataKey::Balance(issuer())), Extension::Instance]
    );
    assert_eq!(world.token.balance(issuer()), 600);
    assert_eq!(world.token.total_supply(), Ok(600));
    assert_eq!(burn(&mut world, issuer(), 601).0, failed(Error::InsufficientBalance));
    assert_eq!(burn(&mut world, issuer(), 0).0, failed(Error::InvalidAmount));
    assert_eq!(burn(&mut world, account(66), 1).0, failed(Error::SenderNotCompliant));
    assert_eq!(burn(&mut blank(), issuer(), 1).0, failed(Error::NotInitialized));
    assert_eq!(burn(&mut world, issuer(), 600).0, Ok(()));
    assert_eq!(world.token.total_supply(), Ok(0));
}

#[test]
fn balances_sum_up_to_the_supply() {
    let mut world = setup();
    let mut state: u64 = 12345;
    let mut next = move || {
        state = state.wrapping_mul(6364136223846793005).wrapping_add(1442695040888963407);
        (state >> 33) as u128
    };
    for _ in 0..300 {
        let a = account(1 + next() % 3);
        let b = account(1 + next() % 4);
        let amount = (next() % 500) as i128;
        match next() % 4 {
            0 => transfer(&mut world, a, b, amount).0.unwrap_or(()),
            1 => mint(&mut world, issuer(), b, amount).0.unwrap_or(()),
            2 => burn(&mut world, a, amount).0.unwrap_or(()),
            _ => mint_batch(&mut world, issuer(), &vec![(a, 1), (b, amount)]).0.unwrap_or(()),
        }
        let sum: i128 = (1..=4).map(|n| world.token.balance(account(n))).sum();
        assert_eq!(world.token.total_supply(), Ok(sum));
        assert_eq!(world.token.balance(account(4)), 0);
    }
}

#[test]
fn a_paused_token_moves_nothing() {
    let mut world = setup();
    assert_eq!(pause(&mut world, issuer()), Ok(()));
    assert_eq!(transfer(&mut world, issuer(), account(2), 1).0, failed(Error::Paused));
    assert_eq!(mint(&mut world, issuer(), account(2), 1).0, failed(Error::Paused));
    assert_eq!(
        mint_batch(&mut world, issuer(), &vec![(account(2), 1)]).0,
        failed(Error::Paused)
    );
    assert_eq!(burn(&mut world, issuer(), 1).0, failed(Error::Paused));
    let (result, env) = act(&mut world, |t, env, _| t.unpause(env, issuer()));
    assert_eq!(result, Ok(()));
    assert_eq!(env.events, vec![Event::Unpause { admin: issuer() }]);
    assert_eq!(transfer(&mut world, issuer(), account(2), 1).0, Ok(()));
    assert_eq!(unpause(&mut world, account(2)), failed(Error::Unauthorized));
}

#[test]
fn test_guardian_absent_by_default() {
    let world = setup();
    assert_eq!(metadata(&world).guardian, None);
}

#[test]
fn test_pause_by_stranger_reverts() {
    let mut world = setup();
    assert_eq!(pause(&mut world, account(66)), failed(Error::Unauthorized));
    assert!(!metadata(&world).paused);
    assert_eq!(pause(&mut blank(), account(66)), failed(Error::NotInitialized));
}

#[test]
fn test_guardian_can_pause() {
    let mut world = setup();
    let guardian = account(5);
    let (result, env) = act(&mut world, |t, env, _| t.set_guardian(env, issuer(), Some(guardian)));
    assert_eq!(result, Ok(()));
    assert_eq!(env.events, vec![Event::Guardian { guardian: Some(guardian) }]);
    let (result, env) = act(&mut world, |t, env, _| t.pause(env, guardian));
    assert_eq!(result, Ok(()));
    assert_eq!(env.events, vec![Event::Pause { caller: guardian }]);
    assert!(metadata(&world).paused);
}

#[test]
fn test_guardian_cannot_unpause() {
    let mut world = setup();
    set_guardian(&mut world, issuer(), Some(account(5))).unwrap();
    pause(&mut world, account(5)).unwrap();
    assert_eq!(unpause(&mut world, account(5)), failed(Error::Unauthorized));
    assert!(metadata(&world).paused);
}

#[test]
fn test_guardian_cannot_mint() {
    let mut world = setup();
    set_guardian(&mut world, issuer(), Some(account(5))).unwrap();
    assert_eq!(mint(&mut world, account(5), account(2), 1).0, failed(Error::Unauthorized));
    assert_eq!(
        mint_batch(&mut world, account(5), &vec![(account(2), 1)]).0,
        failed(Error::Unauthorized)
    );
}

#[test]
fn test_set_guardian_by_non_admin_reverts() {
    let mut world = setup();
    assert_eq!(
        set_guardian(&mut world, account(2), Some(account(2))),
        failed(Error::Unauthorized)
    );
    assert_eq!(metadata(&world).guardian, None);
}

#[test]
fn test_cleared_guardian_loses_pause_rights() {
    let mut world = setup();
    set_guardian(&mut world, issuer(), Some(account(5))).unwrap();
    set_guardian(&mut world, issuer(), None).unwrap();
    assert_eq!(pause(&mut world, account(5)), failed(Error::Unauthorized));
}

#[test]
fn test_admin_still_pauses_with_guardian_set() {
    let mut world = setup();
    set_guardian(&mut world, issuer(), Some(account(5))).unwrap();
    assert_eq!(pause(&mut world, issuer()), Ok(()));
    assert!(metadata(&world).paused);
}

#[test]
fn the_valuation_can_be_updated() {
    let mut world = setup();
    let (result, env) = act(&mut world, |t, env, _| t.update_valuation(env, issuer(), 7_000));
    assert_eq!(result, Ok(()));
    assert_eq!(env.events, vec![Event::Valuation { valuation: 7_000 }]);
    assert_eq!(metadata(&world).valuation, 7_000);
    assert_eq!(
        act(&mut world, |t, env, _| t.update_valuation(env, issuer(), -1)).0,
        failed(Error::InvalidAmount)
    );
    assert_eq!(
        act(&mut world, |t, env, _| t.update_valuation(env, account(2), 1)).0,
        failed(Error::Unauthorized)
    );
    assert_eq!(metadata(&world).valuation, 7_000);
}

#[test]
fn another_compliance_contract_must_approve_the_admin() {
    let mut world = setup();
    transfer(&mut world, issuer(), account(2), 10).0.unwrap();
    assert_eq!(
        act(&mut world, |t, env, answers| t.set_compliance(env, issuer(), contract(21), answers)).0,
        failed(Error::InvalidCompliance)
    );
    assert_eq!(metadata(&world).compliance_contract, rules_address());
    // The question goes to the new contract.
    let mut env = Invocation::new(contract(10), 100);
    env.authorize(issuer());
    assert_eq!(
        world.token.set_compliance(&mut env, issuer(), contract(21), &vec![]),
        Err(Abort::NeedsApproval { compliance: contract(21), who: issuer() })
    );
    assert_eq!(
        world.token.set_compliance(&mut env, issuer(), contract(21), &vec![true]),
        Ok(())
    );
    assert_eq!(env.events, vec![Event::SetComp { compliance: contract(21) }]);
    assert_eq!(metadata(&world).compliance_contract, contract(21));
    // Holders keep what they have.
    assert_eq!(world.token.balance(account(2)), 10);
    assert_eq!(
        act(&mut world, |t, env, answers| t.set_compliance(env, account(2), contract(22), answers))
            .0,
        failed(Error::Unauthorized)
    );
}

#[test]
fn the_admin_can_hand_over_in_one_step() {
    let mut world = setup();
    set_guardian(&mut world, issuer(), Some(account(5))).unwrap();
    assert_eq!(
        act(&mut world, |t, env, _| t.transfer_admin(env, account(2), account(2))).0,
        failed(Error::Unauthorized)
    );
    // A proposal in flight does not outlive the handover.
    act(&mut world, |t, env, _| t.propose_admin(env, issuer(), account(7))).0.unwrap();
    let (result, env) = act(&mut world, |t, env, _| t.transfer_admin(env, issuer(), account(2)));
    assert_eq!(result, Ok(()));
    assert_eq!(world.token.get_pending_admin(), None);
    assert_eq!(
        act(&mut world, |t, env, _| t.accept_admin(env, account(7))).0,
        failed(Error::NoPendingAdmin)
    );
    assert_eq!(
        env.events,
        vec![Event::SetAdmin { old_admin: issuer(), new_admin: account(2) }]
    );
    assert_eq!(metadata(&world).admin, account(2));
    assert_eq!(metadata(&world).guardian, Some(account(5)));
    assert_eq!(world.token.balance(issuer()), 1_000);
    assert_eq!(mint(&mut world, issuer(), account(2), 1).0, failed(Error::Unauthorized));
    assert_eq!(mint(&mut world, account(2), account(2), 1).0, Ok(()));
}

#[test]
fn the_admin_can_hand_over_in_two_steps() {
    let mut world = setup();
    let successor = account(7);
    set_guardian(&mut world, issuer(), Some(account(5))).unwrap();
    assert_eq!(world.token.get_pending_admin(), None);
    assert_eq!(
        act(&mut world, |t, env, _| t.accept_admin(env, successor)).0,
        failed(Error::NoPendingAdmin)
    );
    assert_eq!(
        act(&mut world, |t, env, _| t.cancel_admin_proposal(env, issuer())).0,
        failed(Error::NoPendingAdmin)
    );
    assert_eq!(
        act(&mut world, |t, env, _| t.propose_admin(env, successor, successor)).0,
        failed(Error::Unauthorized)
    );
    let (result, env) = act(&mut world, |t, env, _| t.propose_admin(env, issuer(), successor));
    assert_eq!(result, Ok(()));
    assert_eq!(env.events, vec![Event::Proposed { admin: issuer(), new_admin: successor }]);
    assert_eq!(metadata(&world).admin, issuer());
    assert_eq!(world.token.get_pending_admin(), Some(successor));
    let (result, env) = act(&mut world, |t, env, _| t.cancel_admin_proposal(env, issuer()));
    assert_eq!(result, Ok(()));
    assert_eq!(env.events, vec![Event::Cancelled { admin: issuer() }]);
    assert_eq!(
        act(&mut world, |t, env, _| t.accept_admin(env, successor)).0,
        failed(Error::NoPendingAdmin)
    );
    act(&mut world, |t, env, _| t.propose_admin(env, issuer(), successor)).0.unwrap();
    assert_eq!(
        act(&mut world, |t, env, _| t.accept_admin(env, account(8))).0,
        failed(Error::Unauthorized)
    );
    let (result, env) = act(&mut world, |t, env, _| t.accept_admin(env, successor));
    assert_eq!(result, Ok(()));
    assert_eq!(
        env.events,
        vec![Event::SetAdmin { old_admin: issuer(), new_admin: successor }]
    );
    assert_eq!(metadata(&world).admin, successor);
    assert_eq!(metadata(&world).guardian, Some(account(5)));
    assert_eq!(world.token.get_pending_admin(), None);
    assert_eq!(mint(&mut world, issuer(), account(2), 1).0, failed(Error::Unauthorized));
    assert_eq!(mint(&mut world, successor, account(2), 1).0, Ok(()));
    assert_eq!(
        act(&mut blank(), |t, env, _| t.propose_admin(env, issuer(), successor)).0,
        failed(Error::NotInitialized)
    );
}

#[test]
fn test_compliance_admin_diverges_from_asset_admin() {
    let mut world = setup();
    let asset_admin = issuer();
    let compliance_officer = officer();
    assert_ne!(asset_admin, compliance_officer);
    assert_eq!(metadata(&world).admin, asset_admin);
    assert_eq!(world.rules.get_admin(), Ok(compliance_officer));
    // The officer alone decides who is allowed.
    assert_eq!(transfer(&mut world, asset_admin, account(2), 100).0, Ok(()));
    assert_eq!(
        comply(&mut world, |c, env| c.suspend(env, compliance_officer, account(2))),
        Ok(())
    );
    assert_eq!(
        transfer(&mut world, account(2), account(3), 10).0,
        failed(Error::SenderNotCompliant)
    );
    // The asset admin alone mints.
    assert_eq!(mint(&mut world, asset_admin, account(3), 5).0, Ok(()));
    // Neither has any power over the other's contract.
    assert_eq!(
        comply(&mut world, |c, env| {
            c.add_to_allowlist(env, asset_admin, account(9), &text("US"), 0)
        }),
        Err(ComplianceAbort::Error(ComplianceError::Unauthorized))
    );
    assert_eq!(
        mint(&mut world, compliance_officer, account(3), 5).0,
        failed(Error::Unauthorized)
    );
}

#[test]
fn compliance_decides_at_the_ledger_of_the_transfer() {
    let mut world = setup();
    assert_eq!(
        comply(&mut world, |c, env| {
            c.add_to_allowlist(env, officer(), account(2), &text("KE"), 150)
        }),
        Ok(())
    );
    world.sequence = 149;
    assert_eq!(transfer(&mut world, issuer(), account(2), 10).0, Ok(()));
    world.sequence = 150;
    assert_eq!(
        transfer(&mut world, issuer(), account(2), 10).0,
        failed(Error::RecipientNotCompliant)
    );
    assert_eq!(burn(&mut world, account(2), 1).0, failed(Error::SenderNotCompliant));
    world.sequence = 149;
    assert_eq!(
        comply(&mut world, |c, env| c.block_jurisdiction(env, officer(), &text("ke"))),
        Ok(())
    );
    assert_eq!(
        transfer(&mut world, account(2), issuer(), 1).0,
        failed(Error::SenderNotCompliant)
    );
}

#[test]
fn storage_that_is_out_of_order_does_not_overflow() {
    let mut world = setup();
    world.token.balances.set(account(2), i128::MAX);
    assert_eq!(transfer(&mut world, issuer(), account(2), 1).0, failed(Error::Overflow));
    assert_eq!(mint(&mut world, issuer(), account(2), 1).0, failed(Error::Overflow));
    assert_eq!(
        mint_batch(&mut world, issuer(), &vec![(account(2), 1)]).0,
        failed(Error::Overflow)
    );
    assert_eq!(world.token.balance(issuer()), 1_000);
    assert_eq!(world.token.total_supply(), Ok(1_000));
    if let Some(m) = world.token.metadata.as_mut() {
        m.total_supply = i128::MIN;
    }
    assert_eq!(burn(&mut world, account(2), 1).0, failed(Error::Overflow));
    assert_eq!(world.token.balance(account(2)), i128::MAX);
}

#[test]
fn asset_token_error_codes_are_stable() {
    let codes: Vec<u32> = [
        Error::AlreadyInitialized,
        Error::NotInitialized,
        Error::Unauthorized,
        Error::InsufficientBalance,
        Error::InvalidAmount,
        Error::Paused,
        Error::SenderNotCompliant,
        Error::RecipientNotCompliant,
        Error::Overflow,
        Error::InvalidInput,
        Error::InvalidCompliance,
        Error::NoPendingAdmin,
    ]
    .iter()
    .map(|e| e.code())
    .collect();
    assert_eq!(codes, vec![1, 2, 3, 4, 5, 6, 7, 8, 9, 10, 11, 12]);
}

#[test]
fn a_transfer_needs_two_balances_only() {
    let mut whole = setup();
    transfer(&mut whole, issuer(), account(2), 300).0.unwrap();
    transfer(&mut whole, issuer(), account(3), 200).0.unwrap();
    let mut part = setup();
    part.token.balances.remove(issuer());
    part.token.balances.set(account(2), 300);
    part.token.balances.set(account(3), 200);
    let (_, in_whole) = transfer(&mut whole, account(2), account(3), 50);
    let (_, in_part) = transfer(&mut part, account(2), account(3), 50);
    assert_eq!(in_whole.events, in_part.events);
    for n in 2..=3 {
        assert_eq!(whole.token.balance(account(n)), part.token.balance(account(n)));
    }
    assert_eq!(whole.token.balance(issuer()), 500);
    assert!(!part.token.balances.has(issuer()));
}
