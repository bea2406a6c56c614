//! The records that the protocol keeps and hands out.
use vstd::prelude::*;

verus! {

/// Largest number of assets that one project accepts.
pub const MAX_ACCEPTED_TOKENS: usize = 10;

/// An authenticated principal or an asset contract, by its host-assigned number.
#[derive(Clone, Copy, Debug, PartialEq, Eq, Structural, Hash, PartialOrd, Ord)]
pub struct Address {
    pub id: u64,
}

/// Current lifecycle state of a funding project.
#[derive(Clone, Copy, Debug, PartialEq, Eq, Structural)]
pub enum ProjectStatus {
    /// Accepting donations, goal not yet reached.
    Funding,
    /// Goal reached; awaiting verification (no operation enters this state yet).
    Active,
    /// The oracle verified the proof; funds were released to the creator.
    Completed,
    /// The deadline passed without verification.
    Expired,
}

impl ProjectStatus {
    /// Deposits and verification are allowed in this state.
    pub open spec fn is_open(self) -> bool {
        self == ProjectStatus::Funding || self == ProjectStatus::Active
    }
}

/// A funding project.
#[derive(Clone, Debug, PartialEq, Eq)]
pub struct Project {
    /// Unique id, assigned in increasing order.
    pub id: u64,
    /// Principal that registered the project and receives released funds.
    pub creator: Address,
    /// Ordered, duplicate-free list of the assets this project accepts (1 to 10).
    pub accepted_tokens: Vec<Address>,
    /// Funding goal, in units of the first accepted asset.
    pub goal: i128,
    /// Digest of the proof artifacts, fixed at registration.
    pub proof_hash: [u8; 32],
    /// Timestamp after which an unverified project may expire.
    pub deadline: u64,
    /// Current lifecycle state.
    pub status: ProjectStatus,
    /// Number of deposits accepted so far.
    pub donation_count: u32,
}

/// The mathematical value of a [`Project`].
pub struct ProjectView {
    pub id: u64,
    pub creator: Address,
    pub accepted_tokens: Seq<Address>,
    pub goal: i128,
    pub proof_hash: Seq<u8>,
    pub deadline: u64,
    pub status: ProjectStatus,
    pub donation_count: u32,
}

impl View for Project {
    type V = ProjectView;

    open spec fn view(&self) -> ProjectView {
        ProjectView {
            id: self.id,
            creator: self.creator,
            accepted_tokens: self.accepted_tokens@,
            goal: self.goal,
            proof_hash: self.proof_hash@,
            deadline: self.deadline,
            status: self.status,
            donation_count: self.donation_count,
        }
    }
}

/// A valid list of accepted assets: 1 to 10 distinct entries.
pub open spec fn valid_token_list(tokens: Seq<Address>) -> bool {
    1 <= tokens.len() <= MAX_ACCEPTED_TOKENS && tokens.no_duplicates()
}

impl ProjectView {
    /// What every stored project satisfies.
    pub open spec fn wf(self) -> bool {
        valid_token_list(self.accepted_tokens) && self.goal > 0 && self.proof_hash.len() == 32
    }

    /// This project with another status.
    pub open spec fn with_status(self, status: ProjectStatus) -> ProjectView {
        ProjectView { status, ..self }
    }

    /// This project with another accepted-asset list.
    pub open spec fn with_tokens(self, tokens: Seq<Address>) -> ProjectView {
        ProjectView { accepted_tokens: tokens, ..self }
    }

    /// This project after one more accepted deposit; the counter stops at its maximum.
    pub open spec fn counted(self) -> ProjectView {
        ProjectView {
            donation_count: if self.donation_count < u32::MAX {
                (self.donation_count + 1) as u32
            } else {
                self.donation_count
            },
            ..self
        }
    }
}

impl Project {
    /// Whether `token` is in this project's accepted list.
    pub fn accepts_token(&self, token: &Address) -> (r: bool)
        ensures
            r == self.accepted_tokens@.contains(*token),
    {
        match token_position(&self.accepted_tokens, token) {
            Some(i) => {
                assert(self.accepted_tokens@[i as int] == *token);
                true
            },
            None => false,
        }
    }

    /// Whether this project satisfies the invariant of stored projects.
    pub fn is_well_formed(&self) -> (r: bool)
        ensures
            r == self@.wf(),
    {
        let n = self.accepted_tokens.len();
        1 <= n && n <= MAX_ACCEPTED_TOKENS && !has_duplicates(&self.accepted_tokens) && self.goal > 0
    }

    /// An independent copy of this project.
    pub fn copy_record(&self) -> (r: Project)
        ensures
            r@ == self@,
    {
        Project {
            id: self.id,
            creator: self.creator,
            accepted_tokens: copy_addresses(&self.accepted_tokens),
            goal: self.goal,
            proof_hash: self.proof_hash,
            deadline: self.deadline,
            status: self.status,
            donation_count: self.donation_count,
        }
    }
}

/// The position of `token` in `tokens`, if it occurs.
pub fn token_position(tokens: &Vec<Address>, token: &Address) -> (r: Option<usize>)
    ensures
        match r {
            Some(i) => i < tokens@.len() && tokens@[i as int] == *token,
            None => !tokens@.contains(*token),
        },
{
    let mut i: usize = 0;
    while i < tokens.len()
        invariant
            0 <= i <= tokens@.len(),
            forall|j: int| 0 <= j < i ==> tokens@[j] != *token,
        decreases tokens@.len() - i,
    {
        if tokens[i] == *token {
            return Some(i);
        }
        i += 1;
    }
    None
}

/// Whether some address occurs twice in `tokens`.
pub fn has_duplicates(tokens: &Vec<Address>) -> (r: bool)
    ensures
        r == !tokens@.no_duplicates(),
{
    let mut i: usize = 0;
    while i < tokens.len()
        invariant
            0 <= i <= tokens@.len(),
            forall|a: int, b: int|
                0 <= a < i && 0 <= b < tokens@.len() && a != b ==> tokens@[a] != tokens@[b],
        decreases tokens@.len() - i,
    {
        let mut j: usize = 0;
        while j < tokens.len()
            invariant
                0 <= i < tokens@.len(),
                0 <= j <= tokens@.len(),
                forall|b: int| 0 <= b < j && b != i ==> tokens@[i as int] != tokens@[b],
            decreases tokens@.len() - j,
        {
            if j != i && tokens[i] == tokens[j] {
                return true;
            }
            j += 1;
        }
        i += 1;
    }
    false
}

/// An independent copy of a list of addresses.
pub fn copy_addresses(v: &Vec<Address>) -> (r: Vec<Address>)
    ensures
        r@ == v@,
{
    let mut r: Vec<Address> = Vec::new();
    let mut i: usize = 0;
    while i < v.len()
        invariant
            0 <= i <= v@.len(),
            r@ == v@.subrange(0, i as int),
        decreases v@.len() - i,
    {
        r.push(v[i]);
        i += 1;
        assert(r@ =~= v@.subrange(0, i as int));
    }
    assert(r@ =~= v@);
    r
}

/// Compares a submitted proof with a stored commitment, byte for byte.
pub fn proof_matches(stored: &[u8; 32], submitted: &[u8; 32]) -> (r: bool)
    ensures
        r == (stored@ == submitted@),
{
    let mut i: usize = 0;
    while i < 32
        invariant
            0 <= i <= 32,
            stored@.len() == 32,
            submitted@.len() == 32,
            forall|j: int| 0 <= j < i ==> stored@[j] == submitted@[j],
        decreases 32 - i,
    {
        if stored[i] != submitted[i] {
            assert(stored@[i as int] != submitted@[i as int]);
            return false;
        }
        i += 1;
    }
    assert(stored@ =~= submitted@);
    true
}

/// The balance of one asset held for a project.
#[derive(Clone, Copy, Debug, PartialEq, Eq, Structural)]
pub struct TokenBalance {
    pub token: Address,
    pub balance: i128,
}

/// The balances of a project, one for each accepted asset, in list order.
#[derive(Clone, Debug, PartialEq, Eq)]
pub struct ProjectBalances {
    pub project_id: u64,
    pub balances: Vec<TokenBalance>,
}

} // verus!
