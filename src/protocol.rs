//! The protocol's entry points: each checks the caller's role, then the
//! project's lifecycle state, and only then changes the store and ledger.
//!
//! The host authenticates callers, moves assets, publishes events and reads
//! the clock; the entry points here take the current time as an argument and
//! return the transfers that the host is to make.
use vstd::prelude::*;

use crate::assoc::{assoc_map, keys_unique};
use crate::rbac::{
    admin_or_above, can_grant, can_register, can_revoke, is_oracle, role_in, single_super_admin,
    Role, RoleRegistry,
};
use crate::release::{drained, ledger_nonnegative, lemma_release_exact, paid, payouts};
use crate::storage::{
    add_to_token_balance, balance_in, balances_of, drain_token_balance, get_all_balances,
    get_and_increment_project_id, get_token_balance as storage_get_token_balance, load_project,
    save_project, valid_parts, Store,
};
use crate::types::{
    has_duplicates, proof_matches, token_position, valid_token_list, Address, Project,
    ProjectBalances, ProjectStatus, ProjectView, TokenBalance, MAX_ACCEPTED_TOKENS,
};
use crate::Error;

verus! {

/// The whole state of the protocol: roles, projects and escrow balances.
pub struct PifpProtocol {
    roles: RoleRegistry,
    store: Store,
}

impl PifpProtocol {
    /// Role of each principal that has one.
    pub closed spec fn roles(&self) -> Map<Address, Role> {
        self.roles@
    }

    /// The projects; the project with id `i` is at position `i`.
    pub closed spec fn projects(&self) -> Seq<ProjectView> {
        self.store.projects()
    }

    /// Escrow balances by (project id, asset).
    pub closed spec fn ledger(&self) -> Map<(u64, Address), i128> {
        self.store.ledger()
    }

    /// The id that the next registration receives.
    pub closed spec fn next_id(&self) -> u64 {
        self.store.next_id()
    }

    pub closed spec fn wf(&self) -> bool {
        self.roles.wf() && self.store.wf() && self.store.projects().len() == self.store.next_id()
    }

    /// Facts that every well-formed state gives to its users.
    pub proof fn lemma_wf(&self)
        requires
            self.wf(),
        ensures
            self.projects().len() == self.next_id(),
            forall|i: int|
                0 <= i < self.projects().len() ==> (#[trigger] self.projects()[i]).id == i
                    && self.projects()[i].wf(),
            ledger_nonnegative(self.ledger()),
            forall|k: (u64, Address)| #[trigger]
                self.ledger().contains_key(k) ==> k.0 < self.projects().len(),
            forall|a: Address, b: Address|
                #[trigger] role_in(self.roles(), a) == Some(Role::SuperAdmin) && #[trigger] role_in(
                    self.roles(),
                    b,
                ) == Some(Role::SuperAdmin) ==> a == b,
    {
        self.store.lemma_wf();
        self.roles.lemma_wf();
    }

    /// The project with id `id`, when it exists.
    pub open spec fn project(&self, id: u64) -> ProjectView
        recommends
            id < self.projects().len(),
    {
        self.projects()[id as int]
    }

    /// A fresh protocol: no roles, no projects, an empty ledger.
    pub fn new() -> (r: PifpProtocol)
        ensures
            r.wf(),
            r.roles() == Map::<Address, Role>::empty(),
            r.projects() == Seq::<ProjectView>::empty(),
            r.ledger() == Map::<(u64, Address), i128>::empty(),
            r.next_id() == 0,
    {
        PifpProtocol { roles: RoleRegistry::new(), store: Store::new() }
    }

    /// Number of projects registered so far, which is also the next id.
    pub fn project_count(&self) -> (r: u64)
        requires
            self.wf(),
        ensures
            r == self.next_id(),
    {
        self.store.project_count()
    }

    // ----- persistence -----
    /// The role entries, one per principal that has a role.
    pub fn role_entries(&self) -> (r: Vec<(Address, Role)>)
        requires
            self.wf(),
        ensures
            keys_unique(r@),
            assoc_map(r@) == self.roles(),
    {
        self.roles.entries()
    }

    /// The projects, in id order.
    pub fn project_records(&self) -> (r: Vec<Project>)
        requires
            self.wf(),
        ensures
            r@.map_values(|p: Project| p@) == self.projects(),
    {
        self.store.project_records()
    }

    /// The ledger entries, one per (project id, asset) pair ever credited.
    pub fn ledger_entries(&self) -> (r: Vec<((u64, Address), i128)>)
        requires
            self.wf(),
        ensures
            keys_unique(r@),
            assoc_map(r@) == self.ledger(),
    {
        self.store.ledger_entries()
    }

    /// Rebuilds a state from saved contents, or `None` when they break an
    /// invariant: a principal named twice, two `SuperAdmin`s, a project not at
    /// the position of its id or not well formed, a ledger pair named twice, a
    /// balance for a project that is not stored, or a negative balance.
    pub fn restore(
        roles: Vec<(Address, Role)>,
        projects: Vec<Project>,
        balances: Vec<((u64, Address), i128)>,
    ) -> (r: Option<PifpProtocol>)
        ensures
            r is Some <==> keys_unique(roles@) && single_super_admin(assoc_map(roles@))
                && valid_parts(projects@.map_values(|p: Project| p@), balances@),
            match r {
                Some(s) => {
                    &&& s.wf()
                    &&& s.roles() == assoc_map(roles@)
                    &&& s.projects() == projects@.map_values(|p: Project| p@)
                    &&& s.ledger() == assoc_map(balances@)
                    &&& s.next_id() == projects@.len()
                },
                None => true,
            },
    {
        let registry = match RoleRegistry::from_entries(roles) {
            Some(reg) => reg,
            None => {
                return None;
            },
        };
        match Store::from_parts(projects, balances) {
            Some(store) => Some(PifpProtocol { roles: registry, store }),
            None => None,
        }
    }

    // ----- roles -----
    /// Makes `super_admin` the `SuperAdmin`; refused once a `SuperAdmin` exists.
    pub fn init(&mut self, super_admin: Address) -> (r: Result<(), Error>)
        requires
            old(self).wf(),
        ensures
            final(self).wf(),
            r is Ok <==> !crate::rbac::has_super_admin(old(self).roles()),
            r is Ok ==> final(self).roles() == old(self).roles().insert(
                super_admin,
                Role::SuperAdmin,
            ) && final(self).projects() == old(self).projects() && final(self).ledger() == old(self).ledger() && final(self).next_id() == old(self).next_id(),
            r is Err ==> r == Err::<(), Error>(Error::AlreadyInitialized) && *final(self) == *old(self),
    {
        self.roles.init_super_admin(&super_admin)
    }

    /// `caller` gives `target` the role `role`, replacing any role it had.
    /// Refused unless `caller` is `Admin` or `SuperAdmin`; `SuperAdmin` is never
    /// granted this way, and the `SuperAdmin`'s own role is never replaced.
    pub fn grant_role(&mut self, caller: Address, target: Address, role: Role) -> (r: Result<
        (),
        Error,
    >)
        requires
            old(self).wf(),
        ensures
            final(self).wf(),
            r is Ok <==> can_grant(old(self).roles(), caller, target, role),
            r is Ok ==> final(self).roles() == old(self).roles().insert(target, role) && final(self).projects() == old(self).projects() && final(self).ledger() == old(self).ledger()
                && final(self).next_id() == old(self).next_id(),
            r is Err ==> r == Err::<(), Error>(Error::NotAuthorized) && *final(self) == *old(self),
            role == Role::SuperAdmin ==> r == Err::<(), Error>(Error::NotAuthorized),
    {
        self.roles.grant_role(&caller, &target, role)
    }

    /// `caller` removes the role of `target`; revoking from a principal without
    /// a role does nothing. Refused unless `caller` is `Admin` or `SuperAdmin`,
    /// and refused for the `SuperAdmin` itself.
    pub fn revoke_role(&mut self, caller: Address, target: Address) -> (r: Result<(), Error>)
        requires
            old(self).wf(),
        ensures
            final(self).wf(),
            r is Ok <==> can_revoke(old(self).roles(), caller, target),
            r is Ok ==> final(self).roles() == old(self).roles().remove(target) && final(self).projects() == old(self).projects() && final(self).ledger() == old(self).ledger()
                && final(self).next_id() == old(self).next_id(),
            r is Err ==> r == Err::<(), Error>(Error::NotAuthorized) && *final(self) == *old(self),
    {
        self.roles.revoke_role(&caller, &target)
    }

    /// The current `SuperAdmin` makes `new_super_admin` the `SuperAdmin` and
    /// keeps no role itself.
    pub fn transfer_super_admin(&mut self, current_super_admin: Address, new_super_admin: Address) -> (r:
        Result<(), Error>)
        requires
            old(self).wf(),
        ensures
            final(self).wf(),
            r is Ok <==> role_in(old(self).roles(), current_super_admin) == Some(Role::SuperAdmin),
            r is Ok ==> final(self).roles() == old(self).roles().remove(current_super_admin).insert(
                new_super_admin,
                Role::SuperAdmin,
            ) && final(self).projects() == old(self).projects() && final(self).ledger() == old(self).ledger() && final(self).next_id() == old(self).next_id(),
            r is Err ==> r == Err::<(), Error>(Error::NotAuthorized) && *final(self) == *old(self),
    {
        self.roles.transfer_super_admin(&current_super_admin, &new_super_admin)
    }

    /// The role of `address`, if any.
    pub fn role_of(&self, address: Address) -> (r: Option<Role>)
        requires
            self.wf(),
        ensures
            r == role_in(self.roles(), address),
    {
        self.roles.role_of(&address)
    }

    /// Whether `address` holds exactly `role`.
    pub fn has_role(&self, address: Address, role: Role) -> (r: bool)
        requires
            self.wf(),
        ensures
            r == (role_in(self.roles(), address) == Some(role)),
    {
        self.roles.has_role(&address, role)
    }

    /// `caller`, an `Admin` or `SuperAdmin`, makes `oracle` an `Oracle`.
    pub fn set_oracle(&mut self, caller: Address, oracle: Address) -> (r: Result<(), Error>)
        requires
            old(self).wf(),
        ensures
            final(self).wf(),
            r is Ok <==> can_grant(old(self).roles(), caller, oracle, Role::Oracle),
            r is Ok ==> final(self).roles() == old(self).roles().insert(oracle, Role::Oracle)
                && final(self).projects() == old(self).projects() && final(self).ledger() == old(self).ledger() && final(self).next_id() == old(self).next_id(),
            r is Err ==> r == Err::<(), Error>(Error::NotAuthorized) && *final(self) == *old(self),
    {
        self.roles.require_admin_or_above(&caller)?;
        self.roles.grant_role(&caller, &oracle, Role::Oracle)
    }

    // ----- projects -----
    /// Why `register_project` refuses, if it does.
    pub open spec fn register_error(
        &self,
        creator: Address,
        tokens: Seq<Address>,
        goal: i128,
        deadline: u64,
        now: u64,
    ) -> Option<Error> {
        if !can_register(self.roles(), creator) {
            Some(Error::NotAuthorized)
        } else if !valid_token_list(tokens) {
            Some(Error::InvalidMilestones)
        } else if goal <= 0 {
            Some(Error::InvalidMilestones)
        } else if deadline <= now {
            Some(Error::InvalidMilestones)
        } else {
            None
        }
    }

    /// The project that a successful registration creates.
    pub open spec fn new_project(
        &self,
        creator: Address,
        tokens: Seq<Address>,
        goal: i128,
        proof_hash: Seq<u8>,
        deadline: u64,
    ) -> ProjectView {
        ProjectView {
            id: self.next_id(),
            creator,
            accepted_tokens: tokens,
            goal,
            proof_hash,
            deadline,
            status: ProjectStatus::Funding,
            donation_count: 0,
        }
    }

    /// `creator` registers a project that accepts `accepted_tokens` (1 to 10
    /// distinct assets), with a positive `goal` and a `deadline` after `now`.
    /// The project gets the next id, which exceeds every id issued before.
    pub fn register_project(
        &mut self,
        creator: Address,
        accepted_tokens: Vec<Address>,
        goal: i128,
        proof_hash: [u8; 32],
        deadline: u64,
        now: u64,
    ) -> (r: Result<Project, Error>)
        requires
            old(self).wf(),
            old(self).next_id() < u64::MAX,
        ensures
            final(self).wf(),
            r is Err <==> old(self).register_error(creator, accepted_tokens@, goal, deadline, now)
                is Some,
            match r {
                Ok(p) => {
                    &&& p@ == old(self).new_project(
                        creator,
                        accepted_tokens@,
                        goal,
                        proof_hash@,
                        deadline,
                    )
                    &&& forall|i: int|
                        0 <= i < old(self).projects().len() ==> (#[trigger] old(self).projects()[i]).id < p.id
                    &&& forall|a: Address| balance_in(final(self).ledger(), p.id, a) == 0
                    &&& final(self).projects() == old(self).projects().push(p@)
                    &&& final(self).next_id() == p.id + 1
                    &&& final(self).roles() == old(self).roles()
                    &&& final(self).ledger() == old(self).ledger()
                },
                Err(e) => Some(e) == old(self).register_error(
                    creator,
                    accepted_tokens@,
                    goal,
                    deadline,
                    now,
                ) && *final(self) == *old(self),
            },
    {
        self.roles.require_can_register(&creator)?;
        let n = accepted_tokens.len();
        if n == 0 || n > MAX_ACCEPTED_TOKENS || has_duplicates(&accepted_tokens) {
            return Err(Error::InvalidMilestones);
        }
        if goal <= 0 {
            return Err(Error::InvalidMilestones);
        }
        if deadline <= now {
            return Err(Error::InvalidMilestones);
        }
        proof {
            self.store.lemma_wf();
        }
        let id = get_and_increment_project_id(&mut self.store);
        let project = Project {
            id,
            creator,
            accepted_tokens,
            goal,
            proof_hash,
            deadline,
            status: ProjectStatus::Funding,
            donation_count: 0,
        };
        let ghost before = self.store.ledger();
        save_project(&mut self.store, &project);
        proof {
            assert forall|a: Address| balance_in(self.store.ledger(), id, a) == 0 by {
                assert(!before.contains_key((id, a)));
            }
        }
        Ok(project)
    }

    /// The project with id `id`, or `ProjectNotFound`.
    pub fn get_project(&self, id: u64) -> (r: Result<Project, Error>)
        requires
            self.wf(),
        ensures
            match r {
                Ok(p) => id < self.projects().len() && p@ == self.project(id),
                Err(e) => id >= self.projects().len() && e == Error::ProjectNotFound,
            },
    {
        load_project(&self.store, id)
    }

    // ----- deposits -----
    /// Why `deposit` refuses, if it does.
    pub open spec fn deposit_error(&self, project_id: u64, token: Address, amount: i128) -> Option<
        Error,
    > {
        if amount <= 0 {
            Some(Error::ZeroAmount)
        } else if project_id >= self.projects().len() {
            Some(Error::ProjectNotFound)
        } else if self.project(project_id).status == ProjectStatus::Completed {
            Some(Error::MilestoneAlreadyReleased)
        } else if self.project(project_id).status == ProjectStatus::Expired {
            Some(Error::ProjectNotFound)
        } else if !self.project(project_id).accepted_tokens.contains(token) {
            Some(Error::TokenNotAccepted)
        } else {
            None
        }
    }

    /// `s2` is `s` after an accepted deposit of `amount` of `token` into project `project_id`.
    pub open spec fn deposit_accepted(
        s: PifpProtocol,
        s2: PifpProtocol,
        project_id: u64,
        token: Address,
        amount: i128,
    ) -> bool {
        &&& s.deposit_error(project_id, token, amount) is None
        &&& balance_in(s.ledger(), project_id, token) + amount <= i128::MAX
        &&& s2.ledger() == s.ledger().insert(
            (project_id, token),
            (balance_in(s.ledger(), project_id, token) + amount) as i128,
        )
        &&& s2.projects() == s.projects().update(
            project_id as int,
            s.project(project_id).counted(),
        )
        &&& s2.roles() == s.roles()
        &&& s2.next_id() == s.next_id()
    }

    /// Credits `amount` of `token_address` to project `project_id` and counts
    /// the deposit; returns the new balance. The host pulls the same amount
    /// from `donator` into custody.
    pub fn deposit(&mut self, project_id: u64, donator: Address, token_address: Address, amount: i128) -> (r:
        Result<i128, Error>)
        requires
            old(self).wf(),
            old(self).deposit_error(project_id, token_address, amount) is None ==> balance_in(
                old(self).ledger(),
                project_id,
                token_address,
            ) + amount <= i128::MAX,
        ensures
            final(self).wf(),
            r is Err <==> old(self).deposit_error(project_id, token_address, amount) is Some,
            amount <= 0 ==> r is Err,
            !(project_id < old(self).projects().len() && old(self).project(
                project_id,
            ).accepted_tokens.contains(token_address)) ==> r is Err,
            match r {
                Ok(b) => b == balance_in(old(self).ledger(), project_id, token_address) + amount
                    && Self::deposit_accepted(
                    *old(self),
                    *final(self),
                    project_id,
                    token_address,
                    amount,
                ),
                Err(e) => Some(e) == old(self).deposit_error(project_id, token_address, amount)
                    && *final(self) == *old(self),
            },
    {
        if amount <= 0 {
            return Err(Error::ZeroAmount);
        }
        let mut project = match load_project(&self.store, project_id) {
            Ok(p) => p,
            Err(e) => {
                return Err(e);
            },
        };
        match project.status {
            ProjectStatus::Funding | ProjectStatus::Active => {},
            ProjectStatus::Completed => {
                return Err(Error::MilestoneAlreadyReleased);
            },
            ProjectStatus::Expired => {
                return Err(Error::ProjectNotFound);
            },
        }
        if !project.accepts_token(&token_address) {
            return Err(Error::TokenNotAccepted);
        }
        proof {
            self.store.lemma_wf();
        }
        let new_balance = add_to_token_balance(&mut self.store, project_id, &token_address, amount);
        if project.donation_count < u32::MAX {
            project.donation_count = project.donation_count + 1;
        }
        save_project(&mut self.store, &project);
        Ok(new_balance)
    }

    // ----- accepted assets -----
    /// Why `whitelist_token` refuses, if it does.
    pub open spec fn whitelist_error(&self, caller: Address, project_id: u64, token: Address) -> Option<
        Error,
    > {
        if !admin_or_above(self.roles(), caller) {
            Some(Error::NotAuthorized)
        } else if project_id >= self.projects().len() {
            Some(Error::ProjectNotFound)
        } else if self.project(project_id).accepted_tokens.len() >= MAX_ACCEPTED_TOKENS {
            Some(Error::TooManyTokens)
        } else if self.project(project_id).accepted_tokens.contains(token) {
            Some(Error::TokenAlreadyAccepted)
        } else {
            None
        }
    }

    /// An `Admin` or `SuperAdmin` appends `token_address` to a project's
    /// accepted list, whatever the project's status.
    pub fn whitelist_token(&mut self, caller: Address, project_id: u64, token_address: Address) -> (r:
        Result<(), Error>)
        requires
            old(self).wf(),
        ensures
            final(self).wf(),
            r is Err <==> old(self).whitelist_error(caller, project_id, token_address) is Some,
            match r {
                Ok(_) => {
                    &&& final(self).projects() == old(self).projects().update(
                        project_id as int,
                        old(self).project(project_id).with_tokens(
                            old(self).project(project_id).accepted_tokens.push(token_address),
                        ),
                    )
                    &&& final(self).roles() == old(self).roles()
                    &&& final(self).ledger() == old(self).ledger()
                    &&& final(self).next_id() == old(self).next_id()
                },
                Err(e) => Some(e) == old(self).whitelist_error(caller, project_id, token_address)
                    && *final(self) == *old(self),
            },
    {
        self.roles.require_admin_or_above(&caller)?;
        let mut project = match load_project(&self.store, project_id) {
            Ok(p) => p,
            Err(e) => {
                return Err(e);
            },
        };
        if project.accepted_tokens.len() >= MAX_ACCEPTED_TOKENS {
            return Err(Error::TooManyTokens);
        }
        if project.accepts_token(&token_address) {
            return Err(Error::TokenAlreadyAccepted);
        }
        proof {
            self.store.lemma_wf();
        }
        let ghost before = project.accepted_tokens@;
        project.accepted_tokens.push(token_address);
        proof {
            let after = project.accepted_tokens@;
            assert forall|i: int, j: int|
                0 <= i < after.len() && 0 <= j < after.len() && i != j implies after[i]
                != after[j] by {
                if i < before.len() && j < before.len() {
                    assert(after[i] == before[i] && after[j] == before[j]);
                } else if i < before.len() {
                    assert(after[i] == before[i]);
                    assert(before.contains(after[i]));
                } else {
                    assert(after[j] == before[j]);
                    assert(before.contains(after[j]));
                }
            }
        }
        save_project(&mut self.store, &project);
        assert(project@ == old(self).project(project_id).with_tokens(
            old(self).project(project_id).accepted_tokens.push(token_address),
        ));
        Ok(())
    }

    /// Why `remove_token` refuses, if it does.
    pub open spec fn remove_error(&self, caller: Address, project_id: u64, token: Address) -> Option<
        Error,
    > {
        if !admin_or_above(self.roles(), caller) {
            Some(Error::NotAuthorized)
        } else if project_id >= self.projects().len() {
            Some(Error::ProjectNotFound)
        } else if !self.project(project_id).accepted_tokens.contains(token) {
            Some(Error::TokenNotAccepted)
        } else if self.project(project_id).accepted_tokens.len() <= 1 {
            Some(Error::InvalidMilestones)
        } else {
            None
        }
    }

    /// An `Admin` or `SuperAdmin` removes `token_address` from a project's
    /// accepted list, whatever the project's status; the last asset of a
    /// project cannot be removed. The asset's balance stays in the ledger.
    pub fn remove_token(&mut self, caller: Address, project_id: u64, token_address: Address) -> (r:
        Result<(), Error>)
        requires
            old(self).wf(),
        ensures
            final(self).wf(),
            r is Err <==> old(self).remove_error(caller, project_id, token_address) is Some,
            project_id < old(self).projects().len() && old(self).project(
                project_id,
            ).accepted_tokens.len() <= 1 ==> r is Err,
            match r {
                Ok(_) => {
                    &&& exists|k: int|
                        0 <= k < old(self).project(project_id).accepted_tokens.len() && old(self).project(project_id).accepted_tokens[k] == token_address && final(self).projects() == old(self).projects().update(
                            project_id as int,
                            old(self).project(project_id).with_tokens(
                                old(self).project(project_id).accepted_tokens.remove(k),
                            ),
                        )
                    &&& final(self).project(project_id).accepted_tokens.len() == old(self).project(project_id).accepted_tokens.len() - 1
                    &&& !final(self).project(project_id).accepted_tokens.contains(token_address)
                    &&& final(self).roles() == old(self).roles()
                    &&& final(self).ledger() == old(self).ledger()
                    &&& final(self).next_id() == old(self).next_id()
                },
                Err(e) => Some(e) == old(self).remove_error(caller, project_id, token_address)
                    && *final(self) == *old(self),
            },
    {
        self.roles.require_admin_or_above(&caller)?;
        let mut project = match load_project(&self.store, project_id) {
            Ok(p) => p,
            Err(e) => {
                return Err(e);
            },
        };
        let k = match token_position(&project.accepted_tokens, &token_address) {
            Some(k) => k,
            None => {
                return Err(Error::TokenNotAccepted);
            },
        };
        if project.accepted_tokens.len() <= 1 {
            return Err(Error::InvalidMilestones);
        }
        proof {
            self.store.lemma_wf();
        }
        let ghost before = project.accepted_tokens@;
        project.accepted_tokens.remove(k);
        proof {
            let after = project.accepted_tokens@;
            assert forall|i: int, j: int|
                0 <= i < after.len() && 0 <= j < after.len() && i != j implies after[i]
                != after[j] by {
                let bi = if i < k { i } else { i + 1 };
                let bj = if j < k { j } else { j + 1 };
                assert(after[i] == before[bi] && after[j] == before[bj]);
            }
            assert(!after.contains(token_address)) by {
                if after.contains(token_address) {
                    let i = choose|i: int| 0 <= i < after.len() && after[i] == token_address;
                    let bi = if i < k { i } else { i + 1 };
                    assert(after[i] == before[bi]);
                }
            }
        }
        save_project(&mut self.store, &project);
        assert(project@ == old(self).project(project_id).with_tokens(before.remove(k as int)));
        Ok(())
    }

    // ----- verification and expiry -----
    /// Why `verify_and_release` refuses, if it does.
    pub open spec fn release_error(&self, oracle: Address, project_id: u64, proof_hash: Seq<u8>) -> Option<
        Error,
    > {
        if !is_oracle(self.roles(), oracle) {
            Some(Error::NotAuthorized)
        } else if project_id >= self.projects().len() {
            Some(Error::ProjectNotFound)
        } else if self.project(project_id).status == ProjectStatus::Completed {
            Some(Error::MilestoneAlreadyReleased)
        } else if self.project(project_id).status == ProjectStatus::Expired {
            Some(Error::ProjectNotFound)
        } else if proof_hash != self.project(project_id).proof_hash {
            Some(Error::GoalMismatch)
        } else {
            None
        }
    }

    /// `s2` is `s` after an accepted release of project `project_id`.
    pub open spec fn release_accepted(s: PifpProtocol, s2: PifpProtocol, project_id: u64) -> bool {
        &&& project_id < s.projects().len()
        &&& s2.ledger() == drained(
            s.ledger(),
            project_id,
            s.project(project_id).accepted_tokens,
        )
        &&& s2.projects() == s.projects().update(
            project_id as int,
            s.project(project_id).with_status(ProjectStatus::Completed),
        )
        &&& s2.roles() == s.roles()
        &&& s2.next_id() == s.next_id()
    }

    /// The `Oracle` checks `submitted_proof_hash` against the project's
    /// commitment; on a match every accepted asset's balance is drained and the
    /// project is `Completed`. Returns the transfers to the creator that the host
    /// is to make: one per asset with a non-zero balance, in list order.
    pub fn verify_and_release(&mut self, oracle: Address, project_id: u64, submitted_proof_hash: [u8; 32]) -> (r:
        Result<Vec<TokenBalance>, Error>)
        requires
            old(self).wf(),
        ensures
            final(self).wf(),
            r is Err <==> old(self).release_error(oracle, project_id, submitted_proof_hash@) is Some,
            project_id < old(self).projects().len() && old(self).project(project_id).status
                == ProjectStatus::Completed ==> r is Err,
            match r {
                Ok(transfers) => transfers@ == payouts(
                    old(self).ledger(),
                    project_id,
                    old(self).project(project_id).accepted_tokens,
                ) && Self::release_accepted(*old(self), *final(self), project_id),
                Err(e) => Some(e) == old(self).release_error(
                    oracle,
                    project_id,
                    submitted_proof_hash@,
                ) && *final(self) == *old(self),
            },
    {
        self.roles.require_oracle(&oracle)?;
        let mut project = match load_project(&self.store, project_id) {
            Ok(p) => p,
            Err(e) => {
                return Err(e);
            },
        };
        match project.status {
            ProjectStatus::Funding | ProjectStatus::Active => {},
            ProjectStatus::Completed => {
                return Err(Error::MilestoneAlreadyReleased);
            },
            ProjectStatus::Expired => {
                return Err(Error::ProjectNotFound);
            },
        }
        if !proof_matches(&project.proof_hash, &submitted_proof_hash) {
            return Err(Error::GoalMismatch);
        }
        proof {
            self.store.lemma_wf();
        }
        let ghost l0 = self.store.ledger();
        let ghost tokens = project.accepted_tokens@;
        let mut transfers: Vec<TokenBalance> = Vec::new();
        let mut i: usize = 0;
        while i < project.accepted_tokens.len()
            invariant
                self.store.wf(),
                self.roles == old(self).roles,
                self.store.projects() == old(self).store.projects(),
                self.store.next_id() == old(self).store.next_id(),
                self.store.projects().len() == self.store.next_id(),
                project@ == old(self).project(project_id),
                tokens == project.accepted_tokens@,
                project_id < self.store.projects().len(),
                0 <= i <= tokens.len(),
                self.store.ledger() == drained(l0, project_id, tokens.take(i as int)),
                transfers@ == payouts(l0, project_id, tokens.take(i as int)),
            decreases tokens.len() - i,
        {
            let token = project.accepted_tokens[i];
            let balance = drain_token_balance(&mut self.store, project_id, &token);
            if balance > 0 {
                transfers.push(TokenBalance { token, balance });
            }
            i += 1;
            proof {
                assert(tokens.take(i as int).drop_last() =~= tokens.take(i - 1));
                assert(tokens.take(i as int).last() == token);
            }
        }
        assert(tokens.take(i as int) =~= tokens);
        project.status = ProjectStatus::Completed;
        save_project(&mut self.store, &project);
        Ok(transfers)
    }

    /// Why `expire_project` refuses, if it does.
    pub open spec fn expire_error(&self, project_id: u64, now: u64) -> Option<Error> {
        if project_id >= self.projects().len() {
            Some(Error::ProjectNotFound)
        } else if self.project(project_id).status != ProjectStatus::Funding {
            Some(Error::InvalidTransition)
        } else if now <= self.project(project_id).deadline {
            Some(Error::DeadlineNotReached)
        } else {
            None
        }
    }

    /// Marks a `Funding` project whose deadline is before `now` as `Expired`.
    pub fn expire_project(&mut self, project_id: u64, now: u64) -> (r: Result<(), Error>)
        requires
            old(self).wf(),
        ensures
            final(self).wf(),
            r is Err <==> old(self).expire_error(project_id, now) is Some,
            project_id < old(self).projects().len() && (now <= old(self).project(
                project_id,
            ).deadline || old(self).project(project_id).status != ProjectStatus::Funding)
                ==> r is Err,
            match r {
                Ok(_) => {
                    &&& final(self).projects() == old(self).projects().update(
                        project_id as int,
                        old(self).project(project_id).with_status(ProjectStatus::Expired),
                    )
                    &&& final(self).roles() == old(self).roles()
                    &&& final(self).ledger() == old(self).ledger()
                    &&& final(self).next_id() == old(self).next_id()
                },
                Err(e) => Some(e) == old(self).expire_error(project_id, now) && *final(self)
                    == *old(self),
            },
    {
        let mut project = match load_project(&self.store, project_id) {
            Ok(p) => p,
            Err(e) => {
                return Err(e);
            },
        };
        if project.status != ProjectStatus::Funding {
            return Err(Error::InvalidTransition);
        }
        if now <= project.deadline {
            return Err(Error::DeadlineNotReached);
        }
        proof {
            self.store.lemma_wf();
        }
        project.status = ProjectStatus::Expired;
        save_project(&mut self.store, &project);
        Ok(())
    }

    // ----- queries -----
    /// The balance of `token_address` held for `project_id`; zero if never credited.
    pub fn get_token_balance(&self, project_id: u64, token_address: Address) -> (r: i128)
        requires
            self.wf(),
        ensures
            r == balance_in(self.ledger(), project_id, token_address),
            r >= 0,
    {
        storage_get_token_balance(&self.store, project_id, &token_address)
    }

    /// The balances of every asset the project accepts, in list order.
    pub fn get_project_balances(&self, project_id: u64) -> (r: Result<ProjectBalances, Error>)
        requires
            self.wf(),
        ensures
            match r {
                Ok(b) => project_id < self.projects().len() && b.project_id == project_id
                    && b.balances@ == balances_of(
                    self.ledger(),
                    project_id,
                    self.project(project_id).accepted_tokens,
                ),
                Err(e) => project_id >= self.projects().len() && e == Error::ProjectNotFound,
            },
    {
        let project = match load_project(&self.store, project_id) {
            Ok(p) => p,
            Err(e) => {
                return Err(e);
            },
        };
        proof {
            self.store.lemma_wf();
        }
        Ok(get_all_balances(&self.store, &project))
    }

    /// Whether the project accepts `token_address`.
    pub fn is_token_accepted(&self, project_id: u64, token_address: Address) -> (r: Result<bool, Error>)
        requires
            self.wf(),
        ensures
            match r {
                Ok(b) => project_id < self.projects().len() && b == self.project(
                    project_id,
                ).accepted_tokens.contains(token_address),
                Err(e) => project_id >= self.projects().len() && e == Error::ProjectNotFound,
            },
    {
        let project = match load_project(&self.store, project_id) {
            Ok(p) => p,
            Err(e) => {
                return Err(e);
            },
        };
        Ok(project.accepts_token(&token_address))
    }
}

/// Sum of the amounts of `token` in a run of deposits of (asset, amount).
pub open spec fn deposited_total(deposits: Seq<(Address, i128)>, token: Address) -> int
    decreases deposits.len(),
{
    if deposits.len() == 0 {
        0
    } else {
        deposited_total(deposits.drop_last(), token) + if deposits.last().0 == token {
            deposits.last().1 as int
        } else {
            0
        }
    }
}

/// Over any run of accepted deposits into one project, the balance of each
/// asset is its balance before the run plus the amounts deposited in that
/// asset; deposits of other assets leave it unchanged.
pub proof fn lemma_deposits_accumulate(
    states: Seq<PifpProtocol>,
    project_id: u64,
    deposits: Seq<(Address, i128)>,
    token: Address,
)
    requires
        states.len() == deposits.len() + 1,
        forall|i: int|
            0 <= i < deposits.len() ==> #[trigger] PifpProtocol::deposit_accepted(
                states[i],
                states[i + 1],
                project_id,
                deposits[i].0,
                deposits[i].1,
            ),
    ensures
        balance_in(states.last().ledger(), project_id, token) == balance_in(
            states[0].ledger(),
            project_id,
            token,
        ) + deposited_total(deposits, token),
    decreases deposits.len(),
{
    if deposits.len() > 0 {
        let n = deposits.len() - 1;
        let earlier = states.drop_last();
        assert forall|i: int| 0 <= i < deposits.drop_last().len() implies #[trigger]
            PifpProtocol::deposit_accepted(
                earlier[i],
                earlier[i + 1],
                project_id,
                deposits.drop_last()[i].0,
                deposits.drop_last()[i].1,
            ) by {
            assert(earlier[i] == states[i] && earlier[i + 1] == states[i + 1]);
            assert(deposits.drop_last()[i] == deposits[i]);
            assert(PifpProtocol::deposit_accepted(
                states[i],
                states[i + 1],
                project_id,
                deposits[i].0,
                deposits[i].1,
            ));
        }
        lemma_deposits_accumulate(earlier, project_id, deposits.drop_last(), token);
        assert(PifpProtocol::deposit_accepted(
            states[n],
            states[n + 1],
            project_id,
            deposits[n].0,
            deposits[n].1,
        ));
        assert(earlier.last() == states[n]);
    }
}

/// Once a release of a project has been accepted, every later release request
/// for it is refused: nothing is paid out twice.
pub proof fn lemma_release_once(
    s: PifpProtocol,
    s2: PifpProtocol,
    project_id: u64,
    oracle: Address,
    proof_hash: Seq<u8>,
)
    requires
        PifpProtocol::release_accepted(s, s2, project_id),
    ensures
        s2.release_error(oracle, project_id, proof_hash) is Some,
{
    assert(s2.project(project_id).status == ProjectStatus::Completed);
}

/// An accepted release pays out, for each accepted asset, exactly the balance
/// it held before the release and leaves that balance at zero; an asset with a
/// zero balance gets no transfer, and no other balance changes.
pub proof fn lemma_release_pays_balances(s: PifpProtocol, s2: PifpProtocol, project_id: u64)
    requires
        s.wf(),
        PifpProtocol::release_accepted(s, s2, project_id),
    ensures
        forall|t: Address| #[trigger]
            s.project(project_id).accepted_tokens.contains(t) ==> paid(
                payouts(s.ledger(), project_id, s.project(project_id).accepted_tokens),
                t,
            ) == balance_in(s.ledger(), project_id, t) && balance_in(s2.ledger(), project_id, t)
                == 0,
        forall|i: int|
            0 <= i < payouts(s.ledger(), project_id, s.project(project_id).accepted_tokens).len()
                ==> #[trigger] payouts(
                s.ledger(),
                project_id,
                s.project(project_id).accepted_tokens,
            )[i].balance > 0,
        forall|p: u64, t: Address|
            !(p == project_id && s.project(project_id).accepted_tokens.contains(t))
                ==> #[trigger] balance_in(s2.ledger(), p, t) == balance_in(s.ledger(), p, t),
{
    s.lemma_wf();
    assert(s.projects()[project_id as int].wf());
    lemma_release_exact(s.ledger(), project_id, s.project(project_id).accepted_tokens);
}

/// Once a project has expired, it can neither expire again nor be released.
pub proof fn lemma_expire_final(
    s: PifpProtocol,
    s2: PifpProtocol,
    project_id: u64,
    now: u64,
    oracle: Address,
    proof_hash: Seq<u8>,
)
    requires
        project_id < s.projects().len(),
        s2.projects() == s.projects().update(
            project_id as int,
            s.project(project_id).with_status(ProjectStatus::Expired),
        ),
    ensures
        s2.expire_error(project_id, now) == Some(Error::InvalidTransition),
        s2.release_error(oracle, project_id, proof_hash) is Some,
{
    assert(s2.project(project_id).status == ProjectStatus::Expired);
}

} // verus!
