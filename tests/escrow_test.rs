use pifp_protocol::{Address, Error, PifpProtocol, ProjectStatus, Role, TokenBalance};

fn addr(id: u64) -> Address {
    Address { id }
}

fn setup() -> (PifpProtocol, Address) {
    let mut client = PifpProtocol::new();
    let admin = addr(1);
    client.init(admin).unwrap();
    (client, admin)
}

const NOW: u64 = 100;
const PROOF: [u8; 32] = [7u8; 32];

#[test]
fn registration_ids_increase() {
    let (mut client, admin) = setup();
    let mut last: Option<u64> = None;
    for _ in 0..5 {
        let p = client
            .register_project(admin, vec![addr(100)], 1, PROOF, NOW + 1, NOW)
            .unwrap();
        if let Some(prev) = last {
            assert!(p.id > prev);
        }
        last = Some(p.id);
    }
    assert_eq!(last, Some(4));
}

#[test]
fn registered_project_fields() {
    let (mut client, admin) = setup();
    let p = client
        .register_project(admin, vec![addr(100), addr(101)], 42, PROOF, NOW + 9, NOW)
        .unwrap();
    assert_eq!(p.id, 0);
    assert_eq!(p.creator, admin);
    assert_eq!(p.accepted_tokens, vec![addr(100), addr(101)]);
    assert_eq!(p.goal, 42);
    assert_eq!(p.proof_hash, PROOF);
    assert_eq!(p.deadline, NOW + 9);
    assert_eq!(p.status, ProjectStatus::Funding);
    assert_eq!(p.donation_count, 0);
    assert_eq!(client.get_project(0), Ok(p));
}

#[test]
fn registration_rejects_bad_parameters() {
    let (mut client, admin) = setup();
    assert_eq!(
        client.register_project(admin, vec![], 1, PROOF, NOW + 1, NOW),
        Err(Error::InvalidMilestones)
    );
    let eleven: Vec<Address> = (0..11).map(|i| addr(100 + i)).collect();
    assert_eq!(
        client.register_project(admin, eleven, 1, PROOF, NOW + 1, NOW),
        Err(Error::InvalidMilestones)
    );
    assert_eq!(
        client.register_project(admin, vec![addr(100), addr(100)], 1, PROOF, NOW + 1, NOW),
        Err(Error::InvalidMilestones)
    );
    assert_eq!(
        client.register_project(admin, vec![addr(100)], 0, PROOF, NOW + 1, NOW),
        Err(Error::InvalidMilestones)
    );
    assert_eq!(
        client.register_project(admin, vec![addr(100)], -5, PROOF, NOW + 1, NOW),
        Err(Error::InvalidMilestones)
    );
    assert_eq!(
        client.register_project(admin, vec![addr(100)], 1, PROOF, NOW, NOW),
        Err(Error::InvalidMilestones)
    );
    assert_eq!(client.get_project(0), Err(Error::ProjectNotFound));
}

#[test]
fn registration_accepts_ten_assets() {
    let (mut client, admin) = setup();
    let ten: Vec<Address> = (0..10).map(|i| addr(100 + i)).collect();
    let p = client.register_project(admin, ten.clone(), 1, PROOF, NOW + 1, NOW).unwrap();
    assert_eq!(p.accepted_tokens, ten);
}

#[test]
fn deposits_rejected_for_bad_amount_or_asset() {
    let (mut client, admin) = setup();
    let a = addr(100);
    let p = client.register_project(admin, vec![a], 1, PROOF, NOW + 1, NOW).unwrap();
    assert_eq!(client.deposit(p.id, addr(5), a, 0), Err(Error::ZeroAmount));
    assert_eq!(client.deposit(p.id, addr(5), a, -3), Err(Error::ZeroAmount));
    assert_eq!(client.deposit(p.id, addr(5), addr(101), 3), Err(Error::TokenNotAccepted));
    assert_eq!(client.deposit(9, addr(5), a, 3), Err(Error::ProjectNotFound));
    assert_eq!(client.get_token_balance(p.id, a), 0);
    assert_eq!(client.get_token_balance(p.id, addr(101)), 0);
    assert_eq!(client.get_project(p.id).unwrap().donation_count, 0);
}

#[test]
fn balances_are_sums_per_asset() {
    let (mut client, admin) = setup();
    let a = addr(100);
    let b = addr(101);
    let p = client.register_project(admin, vec![a, b], 1, PROOF, NOW + 1, NOW).unwrap();
    let q = client.register_project(admin, vec![a], 1, PROOF, NOW + 1, NOW).unwrap();
    let deposits = [(a, 5i128), (b, 7), (a, 11), (a, 2), (b, 1)];
    for (token, amount) in deposits {
        client.deposit(p.id, addr(9), token, amount).unwrap();
    }
    client.deposit(q.id, addr(9), a, 1000).unwrap();
    assert_eq!(client.get_token_balance(p.id, a), 18);
    assert_eq!(client.get_token_balance(p.id, b), 8);
    assert_eq!(client.get_token_balance(q.id, a), 1000);
    assert_eq!(client.get_project(p.id).unwrap().donation_count, 5);
    let snapshot = client.get_project_balances(p.id).unwrap();
    assert_eq!(snapshot.project_id, p.id);
    assert_eq!(
        snapshot.balances,
        vec![TokenBalance { token: a, balance: 18 }, TokenBalance { token: b, balance: 8 }]
    );
}

#[test]
fn deposit_up_to_largest_balance() {
    let (mut client, admin) = setup();
    let a = addr(100);
    let p = client.register_project(admin, vec![a], 1, PROOF, NOW + 1, NOW).unwrap();
    assert_eq!(client.deposit(p.id, addr(9), a, 3), Ok(3));
    assert_eq!(client.deposit(p.id, addr(9), a, i128::MAX - 3), Ok(i128::MAX));
}

#[test]
fn whitelist_adds_asset() {
    let (mut client, admin) = setup();
    let a = addr(100);
    let b = addr(101);
    let p = client.register_project(admin, vec![a], 1, PROOF, NOW + 1, NOW).unwrap();
    assert_eq!(client.is_token_accepted(p.id, b), Ok(false));
    client.whitelist_token(admin, p.id, b).unwrap();
    assert_eq!(client.is_token_accepted(p.id, b), Ok(true));
    assert_eq!(client.get_project(p.id).unwrap().accepted_tokens, vec![a, b]);
    assert_eq!(client.deposit(p.id, addr(9), b, 4), Ok(4));
    assert_eq!(client.whitelist_token(admin, p.id, b), Err(Error::TokenAlreadyAccepted));
}

#[test]
fn whitelist_errors() {
    let (mut client, admin) = setup();
    let pm = addr(2);
    client.grant_role(admin, pm, Role::ProjectManager).unwrap();
    let ten: Vec<Address> = (0..10).map(|i| addr(100 + i)).collect();
    let p = client.register_project(admin, ten, 1, PROOF, NOW + 1, NOW).unwrap();
    assert_eq!(client.whitelist_token(pm, p.id, addr(200)), Err(Error::NotAuthorized));
    assert_eq!(client.whitelist_token(admin, p.id, addr(200)), Err(Error::TooManyTokens));
    assert_eq!(client.whitelist_token(admin, 5, addr(200)), Err(Error::ProjectNotFound));
    assert_eq!(client.is_token_accepted(5, addr(200)), Err(Error::ProjectNotFound));
}

#[test]
fn whitelist_ignores_status() {
    let (mut client, admin) = setup();
    let p = client.register_project(admin, vec![addr(100)], 1, PROOF, NOW + 1, NOW).unwrap();
    client.expire_project(p.id, NOW + 2).unwrap();
    client.whitelist_token(admin, p.id, addr(101)).unwrap();
    client.remove_token(admin, p.id, addr(100)).unwrap();
    assert_eq!(client.get_project(p.id).unwrap().accepted_tokens, vec![addr(101)]);
}

#[test]
fn remove_token_shrinks_by_one() {
    let (mut client, admin) = setup();
    let (a, b, c) = (addr(100), addr(101), addr(102));
    let p = client.register_project(admin, vec![a, b, c], 1, PROOF, NOW + 1, NOW).unwrap();
    client.remove_token(admin, p.id, b).unwrap();
    assert_eq!(client.get_project(p.id).unwrap().accepted_tokens, vec![a, c]);
    assert_eq!(client.remove_token(admin, p.id, b), Err(Error::TokenNotAccepted));
    client.remove_token(admin, p.id, a).unwrap();
    assert_eq!(client.get_project(p.id).unwrap().accepted_tokens, vec![c]);
    assert_eq!(client.remove_token(admin, p.id, c), Err(Error::InvalidMilestones));
    assert_eq!(client.get_project(p.id).unwrap().accepted_tokens, vec![c]);
}

#[test]
fn remove_token_errors() {
    let (mut client, admin) = setup();
    let pm = addr(2);
    client.grant_role(admin, pm, Role::ProjectManager).unwrap();
    let p = client
        .register_project(admin, vec![addr(100), addr(101)], 1, PROOF, NOW + 1, NOW)
        .unwrap();
    assert_eq!(client.remove_token(pm, p.id, addr(100)), Err(Error::NotAuthorized));
    assert_eq!(client.remove_token(admin, 7, addr(100)), Err(Error::ProjectNotFound));
}

#[test]
fn removed_asset_keeps_its_balance() {
    let (mut client, admin) = setup();
    let (a, b) = (addr(100), addr(101));
    let p = client.register_project(admin, vec![a, b], 1, PROOF, NOW + 1, NOW).unwrap();
    client.deposit(p.id, addr(9), b, 30).unwrap();
    client.remove_token(admin, p.id, b).unwrap();
    assert_eq!(client.get_token_balance(p.id, b), 30);
    assert_eq!(client.deposit(p.id, addr(9), b, 1), Err(Error::TokenNotAccepted));
    let snapshot = client.get_project_balances(p.id).unwrap();
    assert_eq!(snapshot.balances, vec![TokenBalance { token: a, balance: 0 }]);
}

#[test]
fn project_balances_unknown_project() {
    let (client, _) = setup();
    assert_eq!(client.get_project_balances(0), Err(Error::ProjectNotFound));
}

#[test]
fn grant_super_admin_refused_even_for_super_admin() {
    let (mut client, admin) = setup();
    let other = addr(2);
    assert_eq!(client.grant_role(admin, other, Role::SuperAdmin), Err(Error::NotAuthorized));
    assert_eq!(client.role_of(other), None);
    assert_eq!(client.grant_role(admin, admin, Role::Admin), Err(Error::NotAuthorized));
    assert_eq!(client.role_of(admin), Some(Role::SuperAdmin));
}

#[test]
fn transfer_is_the_way_to_a_new_super_admin() {
    let (mut client, admin) = setup();
    let next = addr(2);
    client.grant_role(admin, next, Role::Oracle).unwrap();
    client.transfer_super_admin(admin, next).unwrap();
    assert_eq!(client.role_of(next), Some(Role::SuperAdmin));
    assert_eq!(client.role_of(admin), None);
    assert_eq!(client.transfer_super_admin(admin, admin), Err(Error::NotAuthorized));
    client.grant_role(next, admin, Role::Admin).unwrap();
    assert_eq!(client.role_of(admin), Some(Role::Admin));
}

#[test]
fn transfer_to_self_keeps_role() {
    let (mut client, admin) = setup();
    client.transfer_super_admin(admin, admin).unwrap();
    assert_eq!(client.role_of(admin), Some(Role::SuperAdmin));
}

#[test]
fn nothing_allowed_before_init() {
    let mut client = PifpProtocol::new();
    assert_eq!(client.grant_role(addr(1), addr(2), Role::Admin), Err(Error::NotAuthorized));
    assert_eq!(
        client.register_project(addr(1), vec![addr(100)], 1, PROOF, NOW + 1, NOW),
        Err(Error::NotAuthorized)
    );
    assert_eq!(client.init(addr(1)), Ok(()));
    assert_eq!(client.init(addr(2)), Err(Error::AlreadyInitialized));
}

#[test]
fn set_oracle_requires_admin() {
    let (mut client, admin) = setup();
    let pm = addr(2);
    client.grant_role(admin, pm, Role::ProjectManager).unwrap();
    assert_eq!(client.set_oracle(pm, addr(3)), Err(Error::NotAuthorized));
    assert_eq!(client.set_oracle(admin, addr(3)), Ok(()));
    assert!(client.has_role(addr(3), Role::Oracle));
}
