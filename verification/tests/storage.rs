use rwa_toolkit::address::{listed, Address, AddressKind};
use rwa_toolkit::index::id_list;
use rwa_toolkit::invocation::{
    Extension, Invocation, Transfer, DAY_IN_LEDGERS, INSTANCE_BUMP_AMOUNT,
    INSTANCE_LIFETIME_THRESHOLD,
};
use rwa_toolkit::roles::{AdminRole, RoleRefusal};
use rwa_toolkit::table::Table;

fn account(n: u128) -> Address {
    Address { kind: AddressKind::Account, hi: 0, lo: n }
}

#[test]
fn a_table_holds_what_was_set_last() {
    let mut table: Table<u64, i128> = Table::new();
    assert_eq!(table.get(1), None);
    table.set(1, 10);
    table.set(2, 20);
    table.set(1, 11);
    assert_eq!(table.get(1), Some(&11));
    assert_eq!(table.get(2), Some(&20));
    assert!(table.has(2) && !table.has(3));
    assert_eq!(table.entries.len(), 2);
    table.remove(1);
    table.remove(3);
    assert_eq!(table.get(1), None);
    assert_eq!(table.get(2), Some(&20));
}

#[test]
fn an_index_without_the_key_is_empty() {
    let mut index: Table<Address, Vec<u64>> = Table::new();
    assert!(id_list(&index, account(1)).is_empty());
    index.set(account(1), vec![3, 5]);
    assert_eq!(id_list(&index, account(1)), vec![3, 5]);
    assert!(id_list(&index, account(2)).is_empty());
}

#[test]
fn addresses_differ_in_kind_and_payload() {
    let list = vec![account(1), account(2)];
    assert!(listed(&list, account(2)));
    assert!(!listed(&list, account(3)));
    assert!(!listed(&list, Address { kind: AddressKind::Contract, hi: 0, lo: 1 }));
    assert!(!listed(&list, Address { kind: AddressKind::Account, hi: 1, lo: 1 }));
}

#[test]
fn an_invocation_collects_what_a_call_leaves() {
    let mut env: Invocation<u8, u16> = Invocation::new(account(1), 5);
    env.authorize(account(2));
    env.publish(7);
    env.extend(300);
    env.bump();
    let payment = Transfer { token: account(3), from: account(4), to: account(5), amount: 6 };
    env.pay(payment);
    assert_eq!((env.contract, env.sequence), (account(1), 5));
    assert_eq!(env.authorized, vec![account(2)]);
    assert_eq!(env.events, vec![7]);
    assert_eq!(env.extended, vec![Extension::Entry(300), Extension::Instance]);
    assert_eq!(env.transfers, vec![payment]);
}

#[test]
fn lifetimes_are_counted_in_days() {
    assert_eq!(DAY_IN_LEDGERS, 17_280);
    assert_eq!(INSTANCE_BUMP_AMOUNT, 518_400);
    assert_eq!(INSTANCE_LIFETIME_THRESHOLD, 501_120);
}

#[test]
fn a_role_moves_at_acceptance_only() {
    let signed = vec![account(1), account(2), account(3)];
    let mut role = AdminRole::new();
    assert_eq!(role.check_admin(&signed, account(1)), Err(RoleRefusal::NotInitialized));
    assert_eq!(role.propose(&signed, account(1), account(2)), Err(RoleRefusal::NotInitialized));
    assert_eq!(role.initialize(&vec![], account(1)), Err(RoleRefusal::Unsigned(account(1))));
    assert_eq!(role.initialize(&signed, account(1)), Ok(()));
    assert_eq!(role.initialize(&signed, account(2)), Err(RoleRefusal::AlreadyInitialized));
    assert_eq!(role.check_admin(&signed, account(1)), Ok(()));
    assert_eq!(role.check_admin(&signed, account(2)), Err(RoleRefusal::Unauthorized));
    assert_eq!(role.check_admin(&vec![], account(2)), Err(RoleRefusal::Unsigned(account(2))));
    assert_eq!(role.cancel(&signed, account(1)), Err(RoleRefusal::NoPendingAdmin));
    assert_eq!(role.propose(&signed, account(1), account(2)), Ok(()));
    assert_eq!(role.admin, Some(account(1)));
    assert_eq!(role.propose(&signed, account(1), account(3)), Ok(()));
    assert_eq!(role.accept(&signed, account(2)), Err(RoleRefusal::Unauthorized));
    assert_eq!(role.accept(&vec![], account(3)), Err(RoleRefusal::Unsigned(account(3))));
    assert_eq!(role.accept(&signed, account(3)), Ok(account(1)));
    assert_eq!((role.admin, role.pending), (Some(account(3)), None));
    assert_eq!(role.accept(&signed, account(3)), Err(RoleRefusal::NoPendingAdmin));
}
