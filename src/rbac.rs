//! Role registry: at most one role per principal, and the access policies
//! built on the role hierarchy.
use vstd::prelude::*;

use crate::assoc::{
    assoc_map, keys_unique, lemma_assoc_dom, lemma_assoc_index, lemma_assoc_push,
    lemma_assoc_remove, lemma_assoc_update,
};
use crate::types::Address;
use crate::Error;

verus! {

/// A privilege level held by a principal.
#[derive(Clone, Copy, Debug, PartialEq, Eq, Structural)]
pub enum Role {
    SuperAdmin,
    Admin,
    ProjectManager,
    Oracle,
    Auditor,
}

impl Role {
    /// Rank used for privilege comparisons.
    pub open spec fn spec_rank(self) -> nat {
        match self {
            Role::SuperAdmin => 3,
            Role::Admin => 2,
            _ => 1,
        }
    }

    pub fn rank(&self) -> (r: u32)
        ensures
            r == self.spec_rank(),
    {
        match self {
            Role::SuperAdmin => 3,
            Role::Admin => 2,
            _ => 1,
        }
    }
}

/// The role of `a` in the registry `m`, if any.
pub open spec fn role_in(m: Map<Address, Role>, a: Address) -> Option<Role> {
    if m.contains_key(a) {
        Some(m[a])
    } else {
        None
    }
}

/// Rank of `a`; a principal without a role has rank 0.
pub open spec fn rank_in(m: Map<Address, Role>, a: Address) -> nat {
    match role_in(m, a) {
        Some(r) => r.spec_rank(),
        None => 0,
    }
}

/// Some principal holds `SuperAdmin`.
pub open spec fn has_super_admin(m: Map<Address, Role>) -> bool {
    exists|a: Address| #[trigger] role_in(m, a) == Some(Role::SuperAdmin)
}

/// No two principals hold `SuperAdmin`.
pub open spec fn single_super_admin(m: Map<Address, Role>) -> bool {
    forall|a: Address, b: Address|
        #[trigger] role_in(m, a) == Some(Role::SuperAdmin) && #[trigger] role_in(m, b) == Some(
            Role::SuperAdmin,
        ) ==> a == b
}

/// Policy for registering projects: `SuperAdmin`, `Admin` or `ProjectManager`.
pub open spec fn can_register(m: Map<Address, Role>, a: Address) -> bool {
    role_in(m, a) == Some(Role::SuperAdmin) || role_in(m, a) == Some(Role::Admin) || role_in(m, a)
        == Some(Role::ProjectManager)
}

/// Policy for administration: rank at least that of `Admin`.
pub open spec fn admin_or_above(m: Map<Address, Role>, a: Address) -> bool {
    rank_in(m, a) >= Role::Admin.spec_rank()
}

/// Policy for verification: exactly the `Oracle` role.
pub open spec fn is_oracle(m: Map<Address, Role>, a: Address) -> bool {
    role_in(m, a) == Some(Role::Oracle)
}

/// When `grant_role` succeeds: an administrator grants a role other than
/// `SuperAdmin` to a principal that is not the `SuperAdmin`.
pub open spec fn can_grant(m: Map<Address, Role>, caller: Address, target: Address, role: Role) -> bool {
    admin_or_above(m, caller) && role != Role::SuperAdmin && role_in(m, target) != Some(
        Role::SuperAdmin,
    )
}

/// When `revoke_role` succeeds: an administrator revokes from a principal
/// that is not the `SuperAdmin`.
pub open spec fn can_revoke(m: Map<Address, Role>, caller: Address, target: Address) -> bool {
    admin_or_above(m, caller) && role_in(m, target) != Some(Role::SuperAdmin)
}

/// `SuperAdmin` is never granted through `grant_role`, whoever the caller is,
/// the current `SuperAdmin` included: the role moves only by
/// `transfer_super_admin`.
pub proof fn lemma_super_admin_never_granted(m: Map<Address, Role>, caller: Address, target: Address)
    ensures
        !can_grant(m, caller, target, Role::SuperAdmin),
{
}

/// The roles, one entry per principal.
pub struct RoleRegistry {
    entries: Vec<(Address, Role)>,
}

impl View for RoleRegistry {
    type V = Map<Address, Role>;

    closed spec fn view(&self) -> Map<Address, Role> {
        assoc_map(self.entries@)
    }
}

impl RoleRegistry {
    pub closed spec fn wf(&self) -> bool {
        keys_unique(self.entries@) && single_super_admin(self@)
    }

    /// A well-formed registry has at most one `SuperAdmin`.
    pub proof fn lemma_wf(&self)
        requires
            self.wf(),
        ensures
            single_super_admin(self@),
    {
    }

    /// An empty registry.
    pub fn new() -> (r: RoleRegistry)
        ensures
            r.wf(),
            r@ == Map::<Address, Role>::empty(),
    {
        RoleRegistry { entries: Vec::new() }
    }

    /// The entries, one per principal that has a role.
    pub fn entries(&self) -> (r: Vec<(Address, Role)>)
        requires
            self.wf(),
        ensures
            keys_unique(r@),
            assoc_map(r@) == self@,
    {
        let mut r: Vec<(Address, Role)> = Vec::new();
        let mut i: usize = 0;
        while i < self.entries.len()
            invariant
                0 <= i <= self.entries@.len(),
                r@ == self.entries@.subrange(0, i as int),
            decreases self.entries@.len() - i,
        {
            r.push(self.entries[i]);
            i += 1;
            assert(r@ =~= self.entries@.subrange(0, i as int));
        }
        assert(r@ =~= self.entries@);
        r
    }

    /// A registry holding exactly `entries`, if they name each principal at
    /// most once and give `SuperAdmin` to at most one of them.
    pub fn from_entries(entries: Vec<(Address, Role)>) -> (r: Option<RoleRegistry>)
        ensures
            r is Some <==> keys_unique(entries@) && single_super_admin(assoc_map(entries@)),
            match r {
                Some(reg) => reg.wf() && reg@ == assoc_map(entries@),
                None => true,
            },
    {
        let n = entries.len();
        let mut i: usize = 0;
        while i < n
            invariant
                n == entries@.len(),
                0 <= i <= n,
                forall|a: int, b: int|
                    0 <= a < i && 0 <= b < n && a != b ==> entries@[a].0 != entries@[b].0,
            decreases n - i,
        {
            let mut j: usize = 0;
            while j < n
                invariant
                    n == entries@.len(),
                    0 <= i < n,
                    0 <= j <= n,
                    forall|b: int| 0 <= b < j && b != i ==> entries@[i as int].0 != entries@[b].0,
                decreases n - j,
            {
                if j != i && entries[i].0 == entries[j].0 {
                    return None;
                }
                j += 1;
            }
            i += 1;
        }
        let mut first: Option<usize> = None;
        let mut i: usize = 0;
        while i < n
            invariant
                n == entries@.len(),
                0 <= i <= n,
                keys_unique(entries@),
                forall|j: int|
                    0 <= j < i && entries@[j].1 == Role::SuperAdmin ==> first == Some(j as usize),
                first matches Some(k) ==> k < i && entries@[k as int].1 == Role::SuperAdmin,
            decreases n - i,
        {
            if entries[i].1 == Role::SuperAdmin {
                match first {
                    Some(k) => {
                        proof {
                            lemma_assoc_index(entries@, k as int);
                            lemma_assoc_index(entries@, i as int);
                            assert(role_in(assoc_map(entries@), entries@[k as int].0) == Some(
                                Role::SuperAdmin,
                            ));
                            assert(role_in(assoc_map(entries@), entries@[i as int].0) == Some(
                                Role::SuperAdmin,
                            ));
                        }
                        return None;
                    },
                    None => {
                        first = Some(i);
                    },
                }
            }
            i += 1;
        }
        let reg = RoleRegistry { entries };
        proof {
            assert forall|a: Address, b: Address|
                #[trigger] role_in(reg@, a) == Some(Role::SuperAdmin) && #[trigger] role_in(
                    reg@,
                    b,
                ) == Some(Role::SuperAdmin) implies a == b by {
                lemma_assoc_dom(reg.entries@, a);
                lemma_assoc_dom(reg.entries@, b);
                let ia = choose|x: int| 0 <= x < n && reg.entries@[x].0 == a;
                let ib = choose|x: int| 0 <= x < n && reg.entries@[x].0 == b;
                lemma_assoc_index(reg.entries@, ia);
                lemma_assoc_index(reg.entries@, ib);
            }
        }
        Some(reg)
    }

    /// Index of the entry of `a`, if any.
    fn find(&self, a: &Address) -> (r: Option<usize>)
        requires
            keys_unique(self.entries@),
        ensures
            match r {
                Some(i) => i < self.entries@.len() && self.entries@[i as int].0 == *a,
                None => !self@.contains_key(*a),
            },
    {
        let mut i: usize = 0;
        while i < self.entries.len()
            invariant
                0 <= i <= self.entries@.len(),
                forall|j: int| 0 <= j < i ==> self.entries@[j].0 != *a,
            decreases self.entries@.len() - i,
        {
            if self.entries[i].0 == *a {
                return Some(i);
            }
            i += 1;
        }
        proof {
            lemma_assoc_dom(self.entries@, *a);
        }
        None
    }

    /// The role of `a`, if any.
    pub fn role_of(&self, a: &Address) -> (r: Option<Role>)
        requires
            self.wf(),
        ensures
            r == role_in(self@, *a),
    {
        match self.find(a) {
            Some(i) => {
                proof {
                    lemma_assoc_index(self.entries@, i as int);
                }
                Some(self.entries[i].1)
            },
            None => None,
        }
    }

    /// Whether `a` holds exactly `role`.
    pub fn has_role(&self, a: &Address, role: Role) -> (r: bool)
        requires
            self.wf(),
        ensures
            r == (role_in(self@, *a) == Some(role)),
    {
        match self.role_of(a) {
            Some(x) => x == role,
            None => false,
        }
    }

    /// Whether some principal holds `SuperAdmin`.
    pub fn super_admin_exists(&self) -> (r: bool)
        requires
            self.wf(),
        ensures
            r == has_super_admin(self@),
    {
        let mut i: usize = 0;
        while i < self.entries.len()
            invariant
                0 <= i <= self.entries@.len(),
                keys_unique(self.entries@),
                forall|j: int| 0 <= j < i ==> self.entries@[j].1 != Role::SuperAdmin,
            decreases self.entries@.len() - i,
        {
            if self.entries[i].1 == Role::SuperAdmin {
                proof {
                    lemma_assoc_index(self.entries@, i as int);
                    assert(role_in(self@, self.entries@[i as int].0) == Some(Role::SuperAdmin));
                }
                return true;
            }
            i += 1;
        }
        proof {
            assert forall|a: Address| #[trigger] role_in(self@, a) != Some(Role::SuperAdmin) by {
                lemma_assoc_dom(self.entries@, a);
                if self@.contains_key(a) {
                    let j = choose|j: int| 0 <= j < self.entries@.len() && self.entries@[j].0 == a;
                    lemma_assoc_index(self.entries@, j);
                }
            }
        }
        false
    }

    /// Gives `a` the role `role`, replacing any role it had.
    fn put(&mut self, a: &Address, role: Role)
        requires
            keys_unique(old(self).entries@),
        ensures
            keys_unique(final(self).entries@),
            final(self)@ == old(self)@.insert(*a, role),
    {
        match self.find(a) {
            Some(i) => {
                proof {
                    lemma_assoc_update(self.entries@, i as int, role);
                }
                self.entries.set(i, (*a, role));
            },
            None => {
                proof {
                    lemma_assoc_push(self.entries@, *a, role);
                }
                self.entries.push((*a, role));
            },
        }
    }

    /// Clears the role of `a`, if any.
    fn clear(&mut self, a: &Address)
        requires
            keys_unique(old(self).entries@),
        ensures
            keys_unique(final(self).entries@),
            final(self)@ == old(self)@.remove(*a),
    {
        match self.find(a) {
            Some(i) => {
                proof {
                    lemma_assoc_remove(self.entries@, i as int);
                }
                self.entries.remove(i);
            },
            None => {
                assert(self@.remove(*a) =~= self@);
            },
        }
    }

    /// Makes `super_admin` the first `SuperAdmin`; refused once one exists.
    pub fn init_super_admin(&mut self, super_admin: &Address) -> (r: Result<(), Error>)
        requires
            old(self).wf(),
        ensures
            final(self).wf(),
            r is Ok <==> !has_super_admin(old(self)@),
            r is Ok ==> final(self)@ == old(self)@.insert(*super_admin, Role::SuperAdmin),
            r is Err ==> r == Err::<(), Error>(Error::AlreadyInitialized) && *final(self) == *old(
                self,
            ),
    {
        if self.super_admin_exists() {
            return Err(Error::AlreadyInitialized);
        }
        let ghost before = self@;
        self.put(super_admin, Role::SuperAdmin);
        proof {
            assert forall|a: Address| #[trigger]
                role_in(self@, a) == Some(Role::SuperAdmin) implies a == *super_admin by {
                if a != *super_admin {
                    assert(role_in(before, a) == role_in(self@, a));
                }
            }
        }
        Ok(())
    }

    /// Fails with `NotAuthorized` unless `a` may register projects.
    pub fn require_can_register(&self, a: &Address) -> (r: Result<(), Error>)
        requires
            self.wf(),
        ensures
            r is Ok <==> can_register(self@, *a),
            r is Err ==> r == Err::<(), Error>(Error::NotAuthorized),
    {
        match self.role_of(a) {
            Some(Role::SuperAdmin) | Some(Role::Admin) | Some(Role::ProjectManager) => Ok(()),
            _ => Err(Error::NotAuthorized),
        }
    }

    /// Fails with `NotAuthorized` unless `a` is `Admin` or `SuperAdmin`.
    pub fn require_admin_or_above(&self, a: &Address) -> (r: Result<(), Error>)
        requires
            self.wf(),
        ensures
            r is Ok <==> admin_or_above(self@, *a),
            r is Err ==> r == Err::<(), Error>(Error::NotAuthorized),
    {
        match self.role_of(a) {
            Some(role) => {
                if role.rank() >= Role::Admin.rank() {
                    Ok(())
                } else {
                    Err(Error::NotAuthorized)
                }
            },
            None => Err(Error::NotAuthorized),
        }
    }

    /// Fails with `NotAuthorized` unless `a` holds exactly `Oracle`.
    pub fn require_oracle(&self, a: &Address) -> (r: Result<(), Error>)
        requires
            self.wf(),
        ensures
            r is Ok <==> is_oracle(self@, *a),
            r is Err ==> r == Err::<(), Error>(Error::NotAuthorized),
    {
        if self.has_role(a, Role::Oracle) {
            Ok(())
        } else {
            Err(Error::NotAuthorized)
        }
    }

    /// `caller` gives `target` the role `role`, replacing its previous role.
    pub fn grant_role(&mut self, caller: &Address, target: &Address, role: Role) -> (r: Result<
        (),
        Error,
    >)
        requires
            old(self).wf(),
        ensures
            final(self).wf(),
            r is Ok <==> can_grant(old(self)@, *caller, *target, role),
            r is Ok ==> final(self)@ == old(self)@.insert(*target, role),
            r is Err ==> r == Err::<(), Error>(Error::NotAuthorized) && *final(self) == *old(self),
            role == Role::SuperAdmin ==> r is Err,
    {
        self.require_admin_or_above(caller)?;
        if role == Role::SuperAdmin || self.has_role(target, Role::SuperAdmin) {
            return Err(Error::NotAuthorized);
        }
        let ghost before = self@;
        self.put(target, role);
        proof {
            assert forall|a: Address| #[trigger]
                role_in(self@, a) == Some(Role::SuperAdmin) implies role_in(before, a) == Some(
                Role::SuperAdmin,
            ) by {
                if a == *target {
                    assert(false);
                }
            }
        }
        Ok(())
    }

    /// `caller` removes the role of `target`; a principal without a role is left as is.
    pub fn revoke_role(&mut self, caller: &Address, target: &Address) -> (r: Result<(), Error>)
        requires
            old(self).wf(),
        ensures
            final(self).wf(),
            r is Ok <==> can_revoke(old(self)@, *caller, *target),
            r is Ok ==> final(self)@ == old(self)@.remove(*target),
            r is Err ==> r == Err::<(), Error>(Error::NotAuthorized) && *final(self) == *old(self),
    {
        self.require_admin_or_above(caller)?;
        if self.has_role(target, Role::SuperAdmin) {
            return Err(Error::NotAuthorized);
        }
        let ghost before = self@;
        self.clear(target);
        proof {
            assert forall|a: Address| #[trigger]
                role_in(self@, a) == Some(Role::SuperAdmin) implies role_in(before, a) == Some(
                Role::SuperAdmin,
            ) by {}
        }
        Ok(())
    }

    /// The current `SuperAdmin` hands its role to `new_super_admin` and keeps none.
    pub fn transfer_super_admin(&mut self, caller: &Address, new_super_admin: &Address) -> (r:
        Result<(), Error>)
        requires
            old(self).wf(),
        ensures
            final(self).wf(),
            r is Ok <==> role_in(old(self)@, *caller) == Some(Role::SuperAdmin),
            r is Ok ==> final(self)@ == old(self)@.remove(*caller).insert(
                *new_super_admin,
                Role::SuperAdmin,
            ),
            r is Err ==> r == Err::<(), Error>(Error::NotAuthorized) && *final(self) == *old(self),
    {
        if !self.has_role(caller, Role::SuperAdmin) {
            return Err(Error::NotAuthorized);
        }
        let ghost before = self@;
        self.clear(caller);
        self.put(new_super_admin, Role::SuperAdmin);
        proof {
            assert forall|a: Address| #[trigger]
                role_in(self@, a) == Some(Role::SuperAdmin) implies a == *new_super_admin by {
                if a != *new_super_admin {
                    assert(role_in(before, a) == Some(Role::SuperAdmin));
                    assert(a != *caller);
                }
            }
        }
        Ok(())
    }
}

} // verus!
