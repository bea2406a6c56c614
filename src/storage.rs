//! The project store and the escrow ledger: the id counter, the project
//! records, and a balance for each (project, asset) pair.
use vstd::prelude::*;

use crate::assoc::{
    assoc_map, keys_unique, lemma_assoc_dom, lemma_assoc_index, lemma_assoc_push,
    lemma_assoc_update,
};
use crate::types::{Address, Project, ProjectBalances, ProjectView, TokenBalance};
use crate::Error;

verus! {

/// Balance of `token` for `project_id` in the ledger `l`; an absent entry reads as zero.
pub open spec fn balance_in(l: Map<(u64, Address), i128>, project_id: u64, token: Address) -> i128 {
    if l.contains_key((project_id, token)) {
        l[(project_id, token)]
    } else {
        0
    }
}

/// The snapshot of the balances of `tokens`, in list order.
pub open spec fn balances_of(
    l: Map<(u64, Address), i128>,
    project_id: u64,
    tokens: Seq<Address>,
) -> Seq<TokenBalance> {
    Seq::new(
        tokens.len(),
        |i: int| TokenBalance { token: tokens[i], balance: balance_in(l, project_id, tokens[i]) },
    )
}

/// Contents from which a store can be rebuilt: each project at the position of
/// its id and well formed; each ledger pair named once, for a stored project,
/// with no negative balance.
pub open spec fn valid_parts(projects: Seq<ProjectView>, balances: Seq<((u64, Address), i128)>) -> bool {
    &&& forall|i: int| 0 <= i < projects.len() ==> (#[trigger] projects[i]).id == i && projects[i].wf()
    &&& keys_unique(balances)
    &&& forall|i: int| 0 <= i < balances.len() ==> #[trigger] balances[i].1 >= 0
    &&& forall|i: int| 0 <= i < balances.len() ==> #[trigger] balances[i].0.0 < projects.len()
}

/// Persistent state: the id counter, the projects by id, and the ledger.
pub struct Store {
    project_count: u64,
    projects: Vec<Project>,
    balances: Vec<((u64, Address), i128)>,
}

impl Store {
    /// The id that the next registration receives.
    pub closed spec fn next_id(&self) -> u64 {
        self.project_count
    }

    /// The stored projects; the project with id `i` is at position `i`.
    pub closed spec fn projects(&self) -> Seq<ProjectView> {
        self.projects@.map_values(|p: Project| p@)
    }

    /// The escrow ledger, keyed by (project id, asset).
    pub closed spec fn ledger(&self) -> Map<(u64, Address), i128> {
        assoc_map(self.balances@)
    }

    pub closed spec fn wf(&self) -> bool {
        &&& self.projects@.len() <= self.project_count
        &&& forall|i: int|
            0 <= i < self.projects@.len() ==> (#[trigger] self.projects@[i])@.id == i
                && self.projects@[i]@.wf()
        &&& keys_unique(self.balances@)
        &&& forall|i: int| 0 <= i < self.balances@.len() ==> #[trigger] self.balances@[i].1 >= 0
        &&& forall|i: int|
            0 <= i < self.balances@.len() ==> #[trigger] self.balances@[i].0.0
                < self.projects@.len()
    }

    /// Facts that every well-formed store gives to its users.
    pub proof fn lemma_wf(&self)
        requires
            self.wf(),
        ensures
            self.projects().len() <= self.next_id(),
            forall|i: int|
                0 <= i < self.projects().len() ==> (#[trigger] self.projects()[i]).id == i
                    && self.projects()[i].wf(),
            forall|k: (u64, Address)| #[trigger]
                self.ledger().contains_key(k) ==> self.ledger()[k] >= 0 && k.0
                    < self.projects().len(),
    {
        assert forall|k: (u64, Address)| #[trigger]
            self.ledger().contains_key(k) implies self.ledger()[k] >= 0 && k.0
            < self.projects().len() by {
            lemma_assoc_dom(self.balances@, k);
            let j = choose|j: int| 0 <= j < self.balances@.len() && self.balances@[j].0 == k;
            lemma_assoc_index(self.balances@, j);
        }
    }

    /// An empty store.
    pub fn new() -> (r: Store)
        ensures
            r.wf(),
            r.next_id() == 0,
            r.projects() == Seq::<ProjectView>::empty(),
            r.ledger() == Map::<(u64, Address), i128>::empty(),
    {
        let r = Store { project_count: 0, projects: Vec::new(), balances: Vec::new() };
        assert(r.projects() =~= Seq::<ProjectView>::empty());
        r
    }

    /// The id that the next registration receives.
    pub fn project_count(&self) -> (r: u64)
        ensures
            r == self.next_id(),
    {
        self.project_count
    }

    /// The stored projects, in id order.
    pub fn project_records(&self) -> (r: Vec<Project>)
        requires
            self.wf(),
        ensures
            r@.map_values(|p: Project| p@) == self.projects(),
    {
        let mut r: Vec<Project> = Vec::new();
        let mut i: usize = 0;
        while i < self.projects.len()
            invariant
                0 <= i <= self.projects@.len(),
                r@.len() == i,
                forall|k: int| 0 <= k < i ==> (#[trigger] r@[k])@ == self.projects@[k]@,
            decreases self.projects@.len() - i,
        {
            r.push(self.projects[i].copy_record());
            i += 1;
        }
        assert(r@.map_values(|p: Project| p@) =~= self.projects());
        r
    }

    /// The ledger entries, one per (project id, asset) pair ever credited.
    pub fn ledger_entries(&self) -> (r: Vec<((u64, Address), i128)>)
        requires
            self.wf(),
        ensures
            keys_unique(r@),
            assoc_map(r@) == self.ledger(),
    {
        let mut r: Vec<((u64, Address), i128)> = Vec::new();
        let mut i: usize = 0;
        while i < self.balances.len()
            invariant
                0 <= i <= self.balances@.len(),
                r@ == self.balances@.subrange(0, i as int),
            decreases self.balances@.len() - i,
        {
            r.push(self.balances[i]);
            i += 1;
            assert(r@ =~= self.balances@.subrange(0, i as int));
        }
        assert(r@ =~= self.balances@);
        r
    }

    /// A store holding exactly `projects` and the ledger `balances`, if each
    /// project sits at the position of its id and is well formed, and the
    /// ledger names each pair once with no negative balance.
    pub fn from_parts(projects: Vec<Project>, balances: Vec<((u64, Address), i128)>) -> (r: Option<
        Store,
    >)
        ensures
            r is Some <==> valid_parts(projects@.map_values(|p: Project| p@), balances@),
            match r {
                Some(s) => s.wf() && s.projects() == projects@.map_values(|p: Project| p@)
                    && s.ledger() == assoc_map(balances@) && s.next_id() == projects@.len(),
                None => true,
            },
    {
        let ghost views = projects@.map_values(|p: Project| p@);
        let mut i: usize = 0;
        while i < projects.len()
            invariant
                0 <= i <= projects@.len(),
                views == projects@.map_values(|p: Project| p@),
                forall|j: int| 0 <= j < i ==> (#[trigger] views[j]).id == j && views[j].wf(),
            decreases projects@.len() - i,
        {
            if projects[i].id != i as u64 || !projects[i].is_well_formed() {
                assert(!(views[i as int].id == i && views[i as int].wf()));
                return None;
            }
            i += 1;
        }
        let n = balances.len();
        let mut i: usize = 0;
        while i < n
            invariant
                n == balances@.len(),
                0 <= i <= n,
                forall|a: int, b: int|
                    0 <= a < i && 0 <= b < n && a != b ==> balances@[a].0 != balances@[b].0,
                forall|a: int| 0 <= a < i ==> #[trigger] balances@[a].1 >= 0,
                forall|a: int| 0 <= a < i ==> #[trigger] balances@[a].0.0 < projects@.len(),
            decreases n - i,
        {
            if balances[i].1 < 0 || balances[i].0.0 >= projects.len() as u64 {
                return None;
            }
            let mut j: usize = 0;
            while j < n
                invariant
                    n == balances@.len(),
                    0 <= i < n,
                    0 <= j <= n,
                    forall|b: int| 0 <= b < j && b != i ==> balances@[i as int].0 != balances@[b].0,
                decreases n - j,
            {
                let ki = balances[i].0;
                let kj = balances[j].0;
                if j != i && ki.0 == kj.0 && ki.1 == kj.1 {
                    return None;
                }
                j += 1;
            }
            i += 1;
        }
        let count = projects.len() as u64;
        let s = Store { project_count: count, projects, balances };
        assert forall|i: int| 0 <= i < s.projects@.len() implies (#[trigger] s.projects@[i])@.id == i
            && s.projects@[i]@.wf() by {
            assert(views[i] == s.projects@[i]@);
        }
        Some(s)
    }

    /// Index of the ledger entry for (`project_id`, `token`), if any.
    fn find_balance(&self, project_id: u64, token: &Address) -> (r: Option<usize>)
        ensures
            match r {
                Some(i) => i < self.balances@.len() && self.balances@[i as int].0 == (
                    project_id,
                    *token,
                ),
                None => !self.ledger().contains_key((project_id, *token)),
            },
    {
        let mut i: usize = 0;
        while i < self.balances.len()
            invariant
                0 <= i <= self.balances@.len(),
                forall|j: int| 0 <= j < i ==> self.balances@[j].0 != (project_id, *token),
            decreases self.balances@.len() - i,
        {
            let key = self.balances[i].0;
            if key.0 == project_id && key.1 == *token {
                return Some(i);
            }
            i += 1;
        }
        proof {
            lemma_assoc_dom(self.balances@, (project_id, *token));
        }
        None
    }
}

/// Reads and advances the project counter; returns the id for the next project.
pub fn get_and_increment_project_id(store: &mut Store) -> (id: u64)
    requires
        old(store).wf(),
        old(store).next_id() < u64::MAX,
    ensures
        final(store).wf(),
        id == old(store).next_id(),
        final(store).next_id() == id + 1,
        final(store).projects() == old(store).projects(),
        final(store).ledger() == old(store).ledger(),
{
    let id = store.project_count;
    store.project_count = id + 1;
    id
}

/// Stores `project` under its id: replaces the record with that id, or adds
/// it when the id is the first one not yet stored.
pub fn save_project(store: &mut Store, project: &Project)
    requires
        old(store).wf(),
        project@.wf(),
        project.id < old(store).next_id(),
        project.id <= old(store).projects().len(),
    ensures
        final(store).wf(),
        final(store).next_id() == old(store).next_id(),
        final(store).ledger() == old(store).ledger(),
        final(store).projects() == if project.id < old(store).projects().len() {
            old(store).projects().update(project.id as int, project@)
        } else {
            old(store).projects().push(project@)
        },
{
    let record = project.copy_record();
    let ghost before = store.projects@;
    if (project.id as usize) < store.projects.len() {
        store.projects.set(project.id as usize, record);
        assert(store.projects() =~= old(store).projects().update(project.id as int, project@));
    } else {
        store.projects.push(record);
        assert(store.projects() =~= old(store).projects().push(project@));
    }
    assert forall|i: int| 0 <= i < store.projects@.len() implies (
    #[trigger] store.projects@[i])@.id == i && store.projects@[i]@.wf() by {
        if i != project.id {
            assert(store.projects@[i] == before[i]);
        }
    }
}

/// The project with id `id`, or `ProjectNotFound`.
pub fn load_project(store: &Store, id: u64) -> (r: Result<Project, Error>)
    requires
        store.wf(),
    ensures
        match r {
            Ok(p) => id < store.projects().len() && p@ == store.projects()[id as int],
            Err(e) => id >= store.projects().len() && e == Error::ProjectNotFound,
        },
{
    if (id as usize) < store.projects.len() && id <= usize::MAX as u64 {
        Ok(store.projects[id as usize].copy_record())
    } else {
        Err(Error::ProjectNotFound)
    }
}

/// The balance of `token` held for `project_id`; zero if never credited.
pub fn get_token_balance(store: &Store, project_id: u64, token: &Address) -> (r: i128)
    requires
        store.wf(),
    ensures
        r == balance_in(store.ledger(), project_id, *token),
        r >= 0,
{
    match store.find_balance(project_id, token) {
        Some(i) => {
            proof {
                lemma_assoc_index(store.balances@, i as int);
            }
            store.balances[i].1
        },
        None => 0,
    }
}

/// Overwrites the balance of `token` for the stored project `project_id`.
pub fn set_token_balance(store: &mut Store, project_id: u64, token: &Address, balance: i128)
    requires
        old(store).wf(),
        project_id < old(store).projects().len(),
        balance >= 0,
    ensures
        final(store).wf(),
        final(store).ledger() == old(store).ledger().insert((project_id, *token), balance),
        final(store).projects() == old(store).projects(),
        final(store).next_id() == old(store).next_id(),
{
    match store.find_balance(project_id, token) {
        Some(i) => {
            proof {
                lemma_assoc_update(store.balances@, i as int, balance);
            }
            store.balances.set(i, ((project_id, *token), balance));
        },
        None => {
            proof {
                lemma_assoc_push(store.balances@, (project_id, *token), balance);
            }
            store.balances.push(((project_id, *token), balance));
        },
    }
}

/// Adds `amount` to the balance of `token` for the stored project
/// `project_id`; returns the new balance.
pub fn add_to_token_balance(store: &mut Store, project_id: u64, token: &Address, amount: i128) -> (r:
    i128)
    requires
        old(store).wf(),
        project_id < old(store).projects().len(),
        amount > 0,
        balance_in(old(store).ledger(), project_id, *token) + amount <= i128::MAX,
    ensures
        final(store).wf(),
        r == balance_in(old(store).ledger(), project_id, *token) + amount,
        final(store).ledger() == old(store).ledger().insert((project_id, *token), r),
        final(store).projects() == old(store).projects(),
        final(store).next_id() == old(store).next_id(),
{
    let current = get_token_balance(store, project_id, token);
    let new_balance = current + amount;
    set_token_balance(store, project_id, token, new_balance);
    new_balance
}

/// Zeroes the balance of `token` for `project_id` and returns what it was;
/// a zero balance is left untouched.
pub fn drain_token_balance(store: &mut Store, project_id: u64, token: &Address) -> (r: i128)
    requires
        old(store).wf(),
    ensures
        final(store).wf(),
        r == balance_in(old(store).ledger(), project_id, *token),
        r >= 0,
        final(store).ledger() == if r > 0 {
            old(store).ledger().insert((project_id, *token), 0)
        } else {
            old(store).ledger()
        },
        final(store).projects() == old(store).projects(),
        final(store).next_id() == old(store).next_id(),
{
    let balance = get_token_balance(store, project_id, token);
    if balance > 0 {
        proof {
            store.lemma_wf();
        }
        set_token_balance(store, project_id, token, 0);
    }
    balance
}

/// The balances of every asset that `project` accepts, in list order.
pub fn get_all_balances(store: &Store, project: &Project) -> (r: ProjectBalances)
    requires
        store.wf(),
    ensures
        r.project_id == project.id,
        r.balances@ == balances_of(store.ledger(), project.id, project.accepted_tokens@),
{
    let mut balances: Vec<TokenBalance> = Vec::new();
    let mut i: usize = 0;
    while i < project.accepted_tokens.len()
        invariant
            store.wf(),
            0 <= i <= project.accepted_tokens@.len(),
            balances@ == balances_of(
                store.ledger(),
                project.id,
                project.accepted_tokens@,
            ).subrange(0, i as int),
        decreases project.accepted_tokens@.len() - i,
    {
        let token = project.accepted_tokens[i];
        let balance = get_token_balance(store, project.id, &token);
        balances.push(TokenBalance { token, balance });
        i += 1;
        assert(balances@ =~= balances_of(
            store.ledger(),
            project.id,
            project.accepted_tokens@,
        ).subrange(0, i as int));
    }
    assert(balances@ =~= balances_of(store.ledger(), project.id, project.accepted_tokens@));
    ProjectBalances { project_id: project.id, balances }
}

} // verus!
