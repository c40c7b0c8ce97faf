use rwa_toolkit::address::{Address, AddressKind};
use rwa_toolkit::dividend::{
    balance_of, check_eligible, Abort, Call, Distribution, DataKey, DividendContract, Error, Event,
    VERSION,
};
use rwa_toolkit::invocation::{Extension, Invocation, Transfer};
use rwa_toolkit::seen::address_code;

fn account(n: u128) -> Address {
    Address { kind: AddressKind::Account, hi: 1, lo: n }
}

fn contract(n: u128) -> Address {
    Address { kind: AddressKind::Contract, hi: 1, lo: n }
}

const SEQUENCE: u32 = 77;

fn this() -> Address {
    contract(500)
}

fn asset() -> Address {
    contract(1)
}

fn payment() -> Address {
    contract(2)
}

/// Makes a call in which everybody signs who is asked to.
fn signed<T>(
    client: &mut DividendContract,
    f: impl Fn(&mut DividendContract, &mut Call) -> Result<T, Abort>,
) -> (Result<T, Abort>, Call) {
    let mut env = Invocation::new(this(), SEQUENCE);
    loop {
        match f(client, &mut env) {
            Err(Abort::Unsigned(who)) => env.authorize(who),
            other => return (other, env),
        }
    }
}

fn failed<T>(e: Error) -> Result<T, Abort> {
    Err(Abort::Error(e))
}

fn setup() -> (DividendContract, Address) {
    let mut client = DividendContract::new();
    let admin = account(1);
    assert_eq!(signed(&mut client, |c, env| c.initialize(env, admin)).0, Ok(()));
    (client, admin)
}

fn create(
    client: &mut DividendContract,
    admin: Address,
    total: i128,
    list: &Vec<(Address, i128)>,
    supply: Option<i128>,
) -> (Result<u64, Abort>, Call) {
    let sdk = soroban_sdk::Env::default();
    signed(client, |c, env| {
        c.create_distribution(&sdk, env, admin, asset(), payment(), total, list.clone(), supply)
    })
}

fn claimable(client: &mut DividendContract, id: u64, holder: Address) -> Result<i128, Abort> {
    signed(client, |c, env| c.claimable(env, id, holder)).0
}

fn claim(client: &mut DividendContract, id: u64, holder: Address) -> (Result<(), Abort>, Call) {
    signed(client, |c, env| c.claim(env, id, holder))
}

fn distribution(client: &mut DividendContract, id: u64) -> Result<Distribution, Abort> {
    signed(client, |c, env| c.get_distribution(env, id)).0
}

#[test]
fn dividend_version_is_three() {
    assert_eq!(DividendContract::version(), VERSION);
    assert_eq!(VERSION, 3);
}

#[test]
fn dividend_is_initialized_once() {
    let (mut client, admin) = setup();
    assert_eq!(client.get_admin(), Ok(admin));
    assert_eq!(
        signed(&mut client, |c, env| c.initialize(env, account(2))).0,
        failed(Error::AlreadyInitialized)
    );
    assert_eq!(DividendContract::new().get_admin(), failed(Error::NotInitialized));
}

#[test]
fn a_distribution_is_escrowed_recorded_and_announced() {
    let (mut client, admin) = setup();
    let list = vec![(account(2), 30), (account(3), 70)];
    let (result, env) = create(&mut client, admin, 1_000, &list, Some(100));
    assert_eq!(result, Ok(1));
    assert_eq!(
        env.transfers,
        vec![Transfer { token: payment(), from: admin, to: this(), amount: 1_000 }]
    );
    assert_eq!(env.events, vec![Event::Created { admin, id: 1, total_amount: 1_000 }]);
    assert_eq!(
        env.extended,
        vec![
            Extension::Entry(DataKey::Snapshot(1)),
            Extension::Entry(DataKey::Supply(1)),
            Extension::Entry(DataKey::Dist(1)),
            Extension::Entry(DataKey::AssetIds(asset())),
            Extension::Instance,
        ]
    );
    assert_eq!(
        distribution(&mut client, 1),
        Ok(Distribution {
            id: 1,
            asset_token: asset(),
            payment_token: payment(),
            total_amount: 1_000,
            distributed: 0,
            snapshot_ledger: SEQUENCE,
            created_at: SEQUENCE,
            completed: false,
        })
    );
    assert_eq!(distribution(&mut client, 2), failed(Error::DistributionNotFound));
    assert_eq!(distribution(&mut client, 0), failed(Error::DistributionNotFound));
}

#[test]
fn shares_are_proportional_and_rounded_down() {
    let (mut client, admin) = setup();
    let list = vec![(account(2), 1), (account(3), 1), (account(4), 1), (account(5), 0)];
    create(&mut client, admin, 1_000, &list, Some(3)).0.unwrap();
    for n in 2..=4 {
        assert_eq!(claimable(&mut client, 1, account(n)), Ok(333));
    }
    assert_eq!(claimable(&mut client, 1, account(5)), Ok(0));
    // Somebody who is not on the list has nothing to claim.
    assert_eq!(claimable(&mut client, 1, account(99)), Ok(0));
    // So has everybody in a distribution that there is not, which leaves nothing
    // to extend.
    for id in [0, 2, u64::MAX] {
        let (result, env) = signed(&mut client, |c, env| c.claimable(env, id, account(2)));
        assert_eq!(result, Ok(0));
        assert!(env.extended.is_empty() && env.events.is_empty());
    }
    let (_, env) = signed(&mut client, |c, env| c.claimable(env, 1, account(2)));
    assert_eq!(env.extended, vec![Extension::Entry(DataKey::Dist(1))]);
    let list = vec![(account(2), 1), (account(3), 3)];
    create(&mut client, admin, 1_001, &list, Some(4)).0.unwrap();
    assert_eq!(claimable(&mut client, 2, account(2)), Ok(250));
    assert_eq!(claimable(&mut client, 2, account(3)), Ok(750));
}

#[test]
fn a_claim_is_paid_once() {
    let (mut client, admin) = setup();
    let list = vec![(account(2), 30), (account(3), 70)];
    create(&mut client, admin, 1_000, &list, Some(100)).0.unwrap();
    assert!(!client.has_claimed(1, account(2)));
    let (result, env) = claim(&mut client, 1, account(2));
    assert_eq!(result, Ok(()));
    assert_eq!(
        env.transfers,
        vec![Transfer { token: payment(), from: this(), to: account(2), amount: 300 }]
    );
    assert_eq!(env.events, vec![Event::Claim { holder: account(2), id: 1, amount: 300 }]);
    assert_eq!(
        env.extended,
        vec![
            Extension::Entry(DataKey::Dist(1)),
            Extension::Entry(DataKey::Dist(1)),
            Extension::Entry(DataKey::Dist(1)),
            Extension::Instance,
        ]
    );
    assert!(client.has_claimed(1, account(2)));
    assert_eq!(claimable(&mut client, 1, account(2)), Ok(0));
    let (result, env) = claim(&mut client, 1, account(2));
    assert_eq!(result, failed(Error::AlreadyClaimed));
    assert!(env.transfers.is_empty() && env.events.is_empty());
    assert_eq!(claimable(&mut client, 1, account(3)), Ok(700));
    let dist = distribution(&mut client, 1).unwrap();
    assert_eq!((dist.distributed, dist.completed), (300, false));
}

#[test]
fn the_last_claim_completes_a_distribution() {
    let (mut client, admin) = setup();
    // The share of a holder with next to nothing is rounded down to nothing.
    let list = vec![(account(2), 500), (account(3), 500), (account(4), 0)];
    create(&mut client, admin, 10, &list, Some(1_000)).0.unwrap();
    claim(&mut client, 1, account(2)).0.unwrap();
    assert!(client.snapshot.has(1) && client.supply.has(1));
    claim(&mut client, 1, account(3)).0.unwrap();
    let dist = distribution(&mut client, 1).unwrap();
    assert_eq!((dist.distributed, dist.completed), (10, true));
    assert!(!client.snapshot.has(1) && !client.supply.has(1));
    assert_eq!(claimable(&mut client, 1, account(4)), Ok(0));
    assert_eq!(claim(&mut client, 1, account(4)).0, failed(Error::NothingToClaim));
    assert_eq!(claim(&mut client, 1, account(3)).0, failed(Error::AlreadyClaimed));
}

#[test]
fn rounding_leaves_less_than_one_unit_per_holder() {
    let (mut client, admin) = setup();
    let list: Vec<(Address, i128)> = (0..7).map(|n| (account(10 + n), 1 + n as i128 * 3)).collect();
    let supply: i128 = list.iter().map(|(_, b)| *b).sum();
    create(&mut client, admin, 1_000, &list, Some(supply)).0.unwrap();
    let mut paid: i128 = 0;
    for (holder, balance) in &list {
        let amount = claimable(&mut client, 1, *holder).unwrap();
        assert_eq!(amount, 1_000 * balance / supply);
        claim(&mut client, 1, *holder).0.unwrap();
        paid += amount;
    }
    assert!(paid <= 1_000 && 1_000 - paid < 7);
    assert_eq!(distribution(&mut client, 1).unwrap().distributed, paid);
}

#[test]
fn the_order_of_claims_does_not_matter() {
    let list = vec![(account(2), 3), (account(3), 5), (account(4), 8)];
    let mut outcomes: Vec<Vec<i128>> = Vec::new();
    for order in [[2, 3, 4], [4, 3, 2], [3, 2, 4]] {
        let (mut client, admin) = setup();
        create(&mut client, admin, 999, &list, Some(16)).0.unwrap();
        let mut paid = vec![0i128; 3];
        for n in order {
            let (result, env) = claim(&mut client, 1, account(n));
            assert_eq!(result, Ok(()));
            paid[(n - 2) as usize] = env.transfers[0].amount;
        }
        outcomes.push(paid);
    }
    assert_eq!(outcomes[0], vec![187, 312, 499]);
    assert_eq!(outcomes[0], outcomes[1]);
    assert_eq!(outcomes[0], outcomes[2]);
}

#[test]
fn a_refused_distribution_moves_no_funds() {
    let (mut client, admin) = setup();
    let good = vec![(account(2), 1)];
    let cases: Vec<(i128, Vec<(Address, i128)>, Option<i128>, Abort)> = vec![
        (0, good.clone(), None, Abort::Error(Error::InvalidAmount)),
        (-5, good.clone(), None, Abort::Error(Error::InvalidAmount)),
        (10, good.clone(), None, Abort::NeedsSupply(asset())),
        (10, good.clone(), Some(0), Abort::Error(Error::ZeroSupply)),
        (10, good.clone(), Some(-1), Abort::Error(Error::ZeroSupply)),
        (10, vec![(account(2), -1)], Some(1), Abort::Error(Error::InvalidAmount)),
        (
            10,
            vec![(account(2), 1), (account(3), 1), (account(2), 1)],
            Some(1),
            Abort::Error(Error::DuplicateHolder),
        ),
        (
            10,
            vec![(account(2), i128::MAX), (account(3), 1)],
            Some(1),
            Abort::Error(Error::ArithmeticOverflow),
        ),
    ];
    for (total, list, supply, abort) in cases {
        let (result, env) = create(&mut client, admin, total, &list, supply);
        assert_eq!(result, Err(abort));
        assert!(env.transfers.is_empty() && env.events.is_empty() && env.extended.is_empty());
    }
    assert_eq!(client.counter, 0);
    assert_eq!(
        create(&mut client, account(66), 10, &good, Some(1)).0,
        failed(Error::Unauthorized)
    );
    assert_eq!(
        create(&mut DividendContract::new(), admin, 10, &good, Some(1)).0,
        failed(Error::NotInitialized)
    );
}

#[test]
fn the_first_bad_entry_of_a_list_counts() {
    let sdk = soroban_sdk::Env::default();
    let list = vec![(account(2), 1), (account(2), -1), (account(3), i128::MAX)];
    assert_eq!(check_eligible(&sdk, &list), Err(Error::InvalidAmount));
    let list = vec![(account(2), 1), (account(2), 1), (account(3), -1)];
    assert_eq!(check_eligible(&sdk, &list), Err(Error::DuplicateHolder));
    let list = vec![(account(2), i128::MAX), (account(3), 1), (account(3), -1)];
    assert_eq!(check_eligible(&sdk, &list), Err(Error::ArithmeticOverflow));
    assert_eq!(check_eligible(&sdk, &vec![]), Ok(0));
    let list = vec![(account(2), i128::MAX), (account(3), 0)];
    assert_eq!(check_eligible(&sdk, &list), Ok(i128::MAX));
}

#[test]
fn holders_are_told_apart_by_their_whole_address() {
    let sdk = soroban_sdk::Env::default();
    // Alike in all but one part of the address.
    let base = Address { kind: AddressKind::Account, hi: u128::MAX, lo: 0 };
    let list = vec![
        (base, 1),
        (Address { kind: AddressKind::Contract, ..base }, 2),
        (Address { hi: u128::MAX - 1, ..base }, 3),
        (Address { lo: u128::MAX, ..base }, 4),
    ];
    assert_eq!(check_eligible(&sdk, &list), Ok(10));
    assert_eq!(balance_of(&list, Address { lo: u128::MAX, ..base }), 4);
    assert_eq!(balance_of(&list, Address { lo: 1, ..base }), 0);
    for i in 0..4 {
        let mut twice = list.clone();
        twice.push(list[i]);
        assert_eq!(check_eligible(&sdk, &twice), Err(Error::DuplicateHolder));
    }
    assert_eq!(address_code(base), (0, u128::MAX, 0));
    assert_eq!(
        address_code(Address { kind: AddressKind::Contract, hi: 2, lo: 3 }),
        (1, 2, 3)
    );
}

#[test]
fn a_long_list_is_accepted() {
    let sdk = soroban_sdk::Env::default();
    let list: Vec<(Address, i128)> = (0..200).map(|n| (account(n), n as i128)).collect();
    assert_eq!(check_eligible(&sdk, &list), Ok(19_900));
}

#[test]
fn a_product_out_of_range_is_refused() {
    let (mut client, admin) = setup();
    let list = vec![(account(2), i128::MAX / 2), (account(3), 1)];
    create(&mut client, admin, 3, &list, Some(1)).0.unwrap();
    assert_eq!(claimable(&mut client, 1, account(2)), failed(Error::ArithmeticOverflow));
    let (result, env) = claim(&mut client, 1, account(2));
    assert_eq!(result, failed(Error::ArithmeticOverflow));
    assert!(env.transfers.is_empty());
    assert!(!client.has_claimed(1, account(2)));
    assert_eq!(claim(&mut client, 1, account(3)).0, failed(Error::NothingToClaim));
}

#[test]
fn storage_that_is_out_of_order_is_not_paid_out() {
    let (mut client, admin) = setup();
    create(&mut client, admin, 100, &vec![(account(2), 1)], Some(1)).0.unwrap();
    let mut dist = distribution(&mut client, 1).unwrap();
    dist.distributed = 50;
    client.dists.set(1, dist);
    assert_eq!(claim(&mut client, 1, account(2)).0, failed(Error::OverDistributed));
    dist.distributed = i128::MAX;
    client.dists.set(1, dist);
    assert_eq!(claim(&mut client, 1, account(2)).0, failed(Error::ArithmeticOverflow));
    dist.distributed = 0;
    client.dists.set(1, dist);
    client.snapshot.remove(1);
    assert_eq!(claimable(&mut client, 1, account(2)), Ok(0));
    assert_eq!(claim(&mut client, 1, account(2)).0, failed(Error::NothingToClaim));
}

#[test]
fn an_empty_list_pays_nobody() {
    let (mut client, admin) = setup();
    create(&mut client, admin, 100, &vec![], Some(1)).0.unwrap();
    assert_eq!(claimable(&mut client, 1, account(2)), Ok(0));
    assert_eq!(claim(&mut client, 1, account(2)).0, failed(Error::NothingToClaim));
}

#[test]
fn a_claim_needs_the_holder_to_sign() {
    let (mut client, admin) = setup();
    create(&mut client, admin, 100, &vec![(account(2), 1)], Some(1)).0.unwrap();
    let mut env = Invocation::new(this(), SEQUENCE);
    env.authorize(admin);
    assert_eq!(client.claim(&mut env, 1, account(2)), Err(Abort::Unsigned(account(2))));
    // The signature is asked for before anything else is looked at.
    assert_eq!(client.claim(&mut env, 99, account(2)), Err(Abort::Unsigned(account(2))));
    env.authorize(account(2));
    assert_eq!(client.claim(&mut env, 99, account(2)), failed(Error::DistributionNotFound));
    assert_eq!(client.claim(&mut env, 1, account(2)), Ok(()));
}

#[test]
fn distributions_are_listed_by_asset() {
    let (mut client, admin) = setup();
    let sdk = soroban_sdk::Env::default();
    for token in [asset(), contract(3), asset()] {
        let (result, _) = signed(&mut client, |c, env| {
            let list = vec![(account(2), 1)];
            c.create_distribution(&sdk, env, admin, token, payment(), 5, list, Some(1))
        });
        assert!(result.is_ok());
    }
    claim(&mut client, 1, account(2)).0.unwrap();
    let (list, env) =
        signed(&mut client, |c, env| Ok(c.get_distributions_for_asset(env, asset())));
    let list = list.unwrap();
    assert_eq!(list.iter().map(|d| d.id).collect::<Vec<u64>>(), vec![1, 3]);
    assert!(list[0].completed && !list[1].completed);
    assert_eq!(
        env.extended,
        vec![Extension::Entry(DataKey::Dist(1)), Extension::Entry(DataKey::Dist(3))]
    );
    let (list, _) =
        signed(&mut client, |c, env| Ok(c.get_distributions_for_asset(env, contract(9))));
    assert!(list.unwrap().is_empty());
    // Distributions do not touch each other.
    assert_eq!(claimable(&mut client, 2, account(2)), Ok(5));
    assert_eq!(claimable(&mut client, 3, account(2)), Ok(5));
}

#[test]
fn the_escrow_holds_what_is_owed() {
    let (mut client, admin) = setup();
    let sdk = soroban_sdk::Env::default();
    let tokens = [contract(2), contract(3), contract(2)];
    let mut held = [0i128; 2];
    let slot = |token: Address| if token == contract(2) { 0 } else { 1 };
    for token in tokens {
        let (_, env) = signed(&mut client, |c, env| {
            let list = vec![(account(2), 1), (account(3), 2)];
            c.create_distribution(&sdk, env, admin, asset(), token, 100, list, Some(3))
        });
        assert_eq!(env.transfers.len(), 1);
        held[slot(env.transfers[0].token)] += env.transfers[0].amount;
    }
    assert_eq!(held, [200, 100]);
    for (id, holder) in [(1, 2), (3, 3), (2, 3), (1, 3)] {
        let (result, env) = claim(&mut client, id, account(holder));
        assert_eq!(result, Ok(()));
        held[slot(env.transfers[0].token)] -= env.transfers[0].amount;
        let mut owed = [0i128; 2];
        for id in 1..=3 {
            let dist = distribution(&mut client, id).unwrap();
            owed[slot(dist.payment_token)] += dist.total_amount - dist.distributed;
        }
        assert_eq!(held, owed);
    }
    assert_eq!(held, [200 - 33 - 66 - 66, 100 - 66]);
}

#[test]
fn dividend_admin_is_handed_over_in_two_steps() {
    let (mut client, admin) = setup();
    let successor = account(7);
    assert_eq!(
        signed(&mut client, |c, env| c.accept_admin(env, successor)).0,
        failed(Error::NoPendingAdmin)
    );
    assert_eq!(
        signed(&mut client, |c, env| c.cancel_admin_proposal(env, admin)).0,
        failed(Error::NoPendingAdmin)
    );
    signed(&mut client, |c, env| c.propose_admin(env, admin, successor)).0.unwrap();
    assert_eq!(client.get_pending_admin(), Some(successor));
    signed(&mut client, |c, env| c.cancel_admin_proposal(env, admin)).0.unwrap();
    assert_eq!(client.get_pending_admin(), None);
    signed(&mut client, |c, env| c.propose_admin(env, admin, successor)).0.unwrap();
    assert_eq!(
        signed(&mut client, |c, env| c.accept_admin(env, account(8))).0,
        failed(Error::Unauthorized)
    );
    let (result, env) = signed(&mut client, |c, env| c.accept_admin(env, successor));
    assert_eq!(result, Ok(()));
    assert_eq!(
        env.events,
        vec![Event::SetAdmin { old_admin: admin, new_admin: successor }]
    );
    let list = vec![(account(2), 1)];
    assert_eq!(create(&mut client, admin, 5, &list, Some(1)).0, failed(Error::Unauthorized));
    assert_eq!(create(&mut client, successor, 5, &list, Some(1)).0, Ok(1));
}

#[test]
fn dividend_error_codes_are_stable() {
    let codes: Vec<u32> = [
        Error::AlreadyInitialized,
        Error::NotInitialized,
        Error::Unauthorized,
        Error::DistributionNotFound,
        Error::InvalidAmount,
        Error::NothingToClaim,
        Error::AlreadyClaimed,
        Error::ZeroSupply,
        Error::OverDistributed,
        Error::ArithmeticOverflow,
        Error::DuplicateHolder,
        Error::NoPendingAdmin,
    ]
    .iter()
    .map(|e| e.code())
    .collect();
    assert_eq!(codes, vec![1, 2, 3, 4, 5, 6, 7, 8, 9, 10, 11, 12]);
}

#[test]
fn a_claim_needs_its_own_entries_only() {
    let (mut whole, admin) = setup();
    for total in [100, 200, 300] {
        create(&mut whole, admin, total, &vec![(account(2), 1), (account(3), 3)], Some(4))
            .0
            .unwrap();
    }
    claim(&mut whole, 2, account(3)).0.unwrap();
    let mut part = DividendContract::new();
    part.dists.set(2, *whole.dists.get(2).unwrap());
    part.supply.set(2, *whole.supply.get(2).unwrap());
    part.snapshot.set(2, whole.snapshot.get(2).unwrap().clone());
    assert_eq!(claimable(&mut part, 2, account(2)), claimable(&mut whole, 2, account(2)));
    let (_, in_part) = claim(&mut part, 2, account(2));
    let (_, in_whole) = claim(&mut whole, 2, account(2));
    assert_eq!(in_part.transfers, in_whole.transfers);
    assert_eq!(in_part.events, in_whole.events);
    assert_eq!(part.dists.get(2), whole.dists.get(2));
    assert_eq!(part.snapshot.has(2), whole.snapshot.has(2));
    // The other distributions are as they were.
    assert_eq!(whole.dists.get(1).map(|d| d.distributed), Some(0));
    assert_eq!(whole.dists.get(3).map(|d| d.distributed), Some(0));
}
