use pifp_protocol::{Address, Error, PifpProtocol, ProjectStatus, Role, TokenBalance};

fn addr(id: u64) -> Address {
    Address { id }
}

fn setup() -> (PifpProtocol, Address) {
    let mut client = PifpProtocol::new();
    let admin = addr(1);
    client.init(admin).unwrap();
    (client, admin)
}

fn dummy_proof() -> [u8; 32] {
    [0xabu8; 32]
}

const NOW: u64 = 0;

#[test]
fn test_expire_project_success() {
    let (mut client, admin) = setup();
    let token = addr(100);
    let deadline = NOW + 1000;
    let project = client
        .register_project(admin, vec![token], 1000i128, dummy_proof(), deadline, NOW)
        .unwrap();
    assert_eq!(project.status, ProjectStatus::Funding);
    client.expire_project(project.id, deadline + 1).unwrap();
    let expired_project = client.get_project(project.id).unwrap();
    assert_eq!(expired_project.status, ProjectStatus::Expired);
}

#[test]
fn test_expire_before_deadline_panics() {
    let (mut client, admin) = setup();
    let token = addr(100);
    let deadline = NOW + 1000;
    let project = client
        .register_project(admin, vec![token], 1000i128, dummy_proof(), deadline, NOW)
        .unwrap();
    assert_eq!(
        client.expire_project(project.id, NOW),
        Err(Error::DeadlineNotReached)
    );
}

#[test]
fn test_expire_wrong_status_panics() {
    let (mut client, admin) = setup();
    let token = addr(100);
    let deadline = NOW + 1000;
    let project = client
        .register_project(admin, vec![token], 1000i128, dummy_proof(), deadline, NOW)
        .unwrap();
    client.expire_project(project.id, deadline + 1).unwrap();
    assert_eq!(
        client.expire_project(project.id, deadline + 1),
        Err(Error::InvalidTransition)
    );
}

#[test]
fn test_expire_completed_project_panics() {
    let (mut client, admin) = setup();
    let token = addr(100);
    let deadline = NOW + 1000;
    let oracle = addr(2);
    client.grant_role(admin, oracle, Role::Oracle).unwrap();
    let proof = dummy_proof();
    let project = client
        .register_project(admin, vec![token], 1000i128, proof, deadline, NOW)
        .unwrap();
    client.verify_and_release(oracle, project.id, proof).unwrap();
    assert_eq!(
        client.expire_project(project.id, deadline + 1),
        Err(Error::InvalidTransition)
    );
}

#[test]
fn test_funds_released_to_creator() {
    let (mut client, super_admin) = setup();
    let creator = addr(2);
    let oracle = addr(3);
    let donator = addr(4);
    let token = addr(100);
    let deposit_amount = 1000i128;
    let proof_hash = [0xabu8; 32];
    client.grant_role(super_admin, creator, Role::ProjectManager).unwrap();
    client.set_oracle(super_admin, oracle).unwrap();
    let project = client
        .register_project(creator, vec![token], 5000, proof_hash, NOW + 86400, NOW)
        .unwrap();
    client.deposit(project.id, donator, token, deposit_amount).unwrap();
    let transfers = client.verify_and_release(oracle, project.id, proof_hash).unwrap();
    let creator_balance: i128 = transfers
        .iter()
        .filter(|t| t.token == token)
        .map(|t| t.balance)
        .sum();
    assert_eq!(creator_balance, deposit_amount, "Creator should receive the deposited funds");
    let contract_balance = client.get_token_balance(project.id, token);
    assert_eq!(contract_balance, 0, "Contract should have zero balance after release");
}

#[test]
fn scenario_deposit_twice_then_release() {
    let (mut client, admin) = setup();
    let oracle = addr(2);
    let donor = addr(3);
    let a = addr(100);
    client.set_oracle(admin, oracle).unwrap();
    let t = 5_000u64;
    let project = client
        .register_project(admin, vec![a], 1000, dummy_proof(), t + 86400, t)
        .unwrap();
    assert_eq!(client.deposit(project.id, donor, a, 600), Ok(600));
    assert_eq!(client.get_token_balance(project.id, a), 600);
    assert_eq!(client.deposit(project.id, donor, a, 400), Ok(1000));
    assert_eq!(client.get_token_balance(project.id, a), 1000);
    assert_eq!(client.get_project(project.id).unwrap().donation_count, 2);
    let transfers = client.verify_and_release(oracle, project.id, dummy_proof()).unwrap();
    assert_eq!(transfers, vec![TokenBalance { token: a, balance: 1000 }]);
    assert_eq!(client.get_project(project.id).unwrap().status, ProjectStatus::Completed);
    assert_eq!(client.get_token_balance(project.id, a), 0);
}

#[test]
fn scenario_release_skips_empty_asset() {
    let (mut client, admin) = setup();
    let oracle = addr(2);
    let donor = addr(3);
    let a = addr(100);
    let b = addr(101);
    client.set_oracle(admin, oracle).unwrap();
    let project = client
        .register_project(admin, vec![a, b], 1000, dummy_proof(), NOW + 500, NOW)
        .unwrap();
    client.deposit(project.id, donor, a, 250).unwrap();
    let transfers = client.verify_and_release(oracle, project.id, dummy_proof()).unwrap();
    assert_eq!(transfers, vec![TokenBalance { token: a, balance: 250 }]);
    assert_eq!(client.get_project(project.id).unwrap().status, ProjectStatus::Completed);
    assert_eq!(client.get_token_balance(project.id, a), 0);
    assert_eq!(client.get_token_balance(project.id, b), 0);
}

#[test]
fn scenario_expire_around_deadline() {
    let (mut client, admin) = setup();
    let t = 7_000u64;
    let project = client
        .register_project(admin, vec![addr(100)], 1000, dummy_proof(), t + 1000, t)
        .unwrap();
    assert_eq!(client.expire_project(project.id, t + 999), Err(Error::DeadlineNotReached));
    assert_eq!(client.expire_project(project.id, t + 1000), Err(Error::DeadlineNotReached));
    assert_eq!(client.expire_project(project.id, t + 1001), Ok(()));
    assert_eq!(client.get_project(project.id).unwrap().status, ProjectStatus::Expired);
    assert_eq!(client.expire_project(project.id, t + 5000), Err(Error::InvalidTransition));
}

#[test]
fn second_release_fails_and_pays_nothing() {
    let (mut client, admin) = setup();
    let oracle = addr(2);
    let a = addr(100);
    client.set_oracle(admin, oracle).unwrap();
    let project = client
        .register_project(admin, vec![a], 10, dummy_proof(), NOW + 10, NOW)
        .unwrap();
    client.deposit(project.id, addr(3), a, 7).unwrap();
    assert_eq!(
        client.verify_and_release(oracle, project.id, dummy_proof()),
        Ok(vec![TokenBalance { token: a, balance: 7 }])
    );
    assert_eq!(
        client.verify_and_release(oracle, project.id, dummy_proof()),
        Err(Error::MilestoneAlreadyReleased)
    );
    assert_eq!(client.get_token_balance(project.id, a), 0);
}

#[test]
fn release_of_expired_project_fails() {
    let (mut client, admin) = setup();
    let oracle = addr(2);
    client.set_oracle(admin, oracle).unwrap();
    let project = client
        .register_project(admin, vec![addr(100)], 10, dummy_proof(), NOW + 10, NOW)
        .unwrap();
    client.expire_project(project.id, NOW + 11).unwrap();
    assert_eq!(
        client.verify_and_release(oracle, project.id, dummy_proof()),
        Err(Error::ProjectNotFound)
    );
    assert_eq!(
        client.deposit(project.id, addr(3), addr(100), 5),
        Err(Error::ProjectNotFound)
    );
}

#[test]
fn deposit_after_release_fails() {
    let (mut client, admin) = setup();
    let oracle = addr(2);
    client.set_oracle(admin, oracle).unwrap();
    let project = client
        .register_project(admin, vec![addr(100)], 10, dummy_proof(), NOW + 10, NOW)
        .unwrap();
    client.verify_and_release(oracle, project.id, dummy_proof()).unwrap();
    assert_eq!(
        client.deposit(project.id, addr(3), addr(100), 5),
        Err(Error::MilestoneAlreadyReleased)
    );
}

#[test]
fn super_admin_is_not_an_oracle() {
    let (mut client, admin) = setup();
    let project = client
        .register_project(admin, vec![addr(100)], 10, dummy_proof(), NOW + 10, NOW)
        .unwrap();
    assert_eq!(
        client.verify_and_release(admin, project.id, dummy_proof()),
        Err(Error::NotAuthorized)
    );
}

#[test]
fn expire_unknown_project_fails() {
    let (mut client, _) = setup();
    assert_eq!(client.expire_project(3, NOW + 1), Err(Error::ProjectNotFound));
}
