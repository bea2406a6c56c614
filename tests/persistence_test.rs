use pifp_protocol::{Address, Error, PifpProtocol, ProjectStatus, Role};

fn addr(id: u64) -> Address {
    Address { id }
}

fn sample() -> PifpProtocol {
    let mut c = PifpProtocol::new();
    c.init(addr(1)).unwrap();
    c.grant_role(addr(1), addr(2), Role::Oracle).unwrap();
    let p = c.register_project(addr(1), vec![addr(100), addr(101)], 50, [3u8; 32], 20, 10).unwrap();
    c.deposit(p.id, addr(5), addr(101), 9).unwrap();
    c.register_project(addr(1), vec![addr(102)], 5, [4u8; 32], 30, 10).unwrap();
    c
}

#[test]
fn restore_round_trip() {
    let c = sample();
    let mut r = PifpProtocol::restore(c.role_entries(), c.project_records(), c.ledger_entries()).unwrap();
    assert_eq!(r.role_of(addr(1)), Some(Role::SuperAdmin));
    assert_eq!(r.role_of(addr(2)), Some(Role::Oracle));
    assert_eq!(r.project_records(), c.project_records());
    assert_eq!(r.project_count(), 2);
    assert_eq!(r.get_token_balance(0, addr(101)), 9);
    let p = r.register_project(addr(1), vec![addr(100)], 1, [0u8; 32], 11, 10).unwrap();
    assert_eq!(p.id, 2);
    assert_eq!(r.verify_and_release(addr(2), 0, [3u8; 32]).map(|t| t.len()), Ok(1));
    assert_eq!(r.get_project(0).unwrap().status, ProjectStatus::Completed);
    assert_eq!(r.init(addr(9)), Err(Error::AlreadyInitialized));
}

#[test]
fn restore_rejects_broken_contents() {
    let c = sample();
    let mut roles = c.role_entries();
    roles.push((addr(7), Role::SuperAdmin));
    assert!(PifpProtocol::restore(roles, c.project_records(), c.ledger_entries()).is_none());

    let mut roles = c.role_entries();
    roles.push((addr(2), Role::Admin));
    assert!(PifpProtocol::restore(roles, c.project_records(), c.ledger_entries()).is_none());

    let mut projects = c.project_records();
    projects.swap(0, 1);
    assert!(PifpProtocol::restore(c.role_entries(), projects, c.ledger_entries()).is_none());

    let mut projects = c.project_records();
    projects[1].accepted_tokens.clear();
    assert!(PifpProtocol::restore(c.role_entries(), projects, c.ledger_entries()).is_none());

    let mut balances = c.ledger_entries();
    balances.push(((1, addr(102)), -1));
    assert!(PifpProtocol::restore(c.role_entries(), c.project_records(), balances).is_none());

    let mut balances = c.ledger_entries();
    balances.push(((2, addr(100)), 5));
    assert!(PifpProtocol::restore(c.role_entries(), c.project_records(), balances).is_none());

    let mut balances = c.ledger_entries();
    balances.push(((0, addr(101)), 4));
    assert!(PifpProtocol::restore(c.role_entries(), c.project_records(), balances).is_none());
}

#[test]
fn fresh_state_is_empty() {
    let c = PifpProtocol::new();
    assert_eq!(c.project_count(), 0);
    assert!(c.role_entries().is_empty());
    assert!(c.project_records().is_empty());
    assert!(c.ledger_entries().is_empty());
    assert_eq!(c.get_project(0), Err(Error::ProjectNotFound));
}

#[test]
fn restored_state_registers_with_empty_balances() {
    let c = sample();
    let mut r = PifpProtocol::restore(c.role_entries(), c.project_records(), c.ledger_entries()).unwrap();
    let p = r.register_project(addr(1), vec![addr(100), addr(101)], 1, [0u8; 32], 11, 10).unwrap();
    assert_eq!(r.get_token_balance(p.id, addr(100)), 0);
    assert_eq!(r.get_token_balance(p.id, addr(101)), 0);
    r.deposit(p.id, addr(5), addr(101), 3).unwrap();
    assert_eq!(r.get_token_balance(p.id, addr(100)), 0);
    assert_eq!(r.get_token_balance(p.id, addr(101)), 3);
}
