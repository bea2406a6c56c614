//! What releasing a project's escrow does to the ledger, and what it pays out.
use vstd::prelude::*;

use crate::storage::balance_in;
use crate::types::{Address, TokenBalance};

verus! {

/// The ledger after draining the balances of `tokens` for `project_id`, in list order.
pub open spec fn drained(l: Map<(u64, Address), i128>, project_id: u64, tokens: Seq<Address>) -> Map<
    (u64, Address),
    i128,
>
    decreases tokens.len(),
{
    if tokens.len() == 0 {
        l
    } else {
        let prev = drained(l, project_id, tokens.drop_last());
        if balance_in(prev, project_id, tokens.last()) > 0 {
            prev.insert((project_id, tokens.last()), 0)
        } else {
            prev
        }
    }
}

/// The transfers made while draining `tokens` in list order: one for each
/// non-zero balance, of the amount drained.
pub open spec fn payouts(l: Map<(u64, Address), i128>, project_id: u64, tokens: Seq<Address>) -> Seq<
    TokenBalance,
>
    decreases tokens.len(),
{
    if tokens.len() == 0 {
        Seq::empty()
    } else {
        let prev = drained(l, project_id, tokens.drop_last());
        let b = balance_in(prev, project_id, tokens.last());
        let earlier = payouts(l, project_id, tokens.drop_last());
        if b > 0 {
            earlier.push(TokenBalance { token: tokens.last(), balance: b })
        } else {
            earlier
        }
    }
}

/// Total amount of `token` in a list of transfers.
pub open spec fn paid(transfers: Seq<TokenBalance>, token: Address) -> int
    decreases transfers.len(),
{
    if transfers.len() == 0 {
        0
    } else {
        paid(transfers.drop_last(), token) + if transfers.last().token == token {
            transfers.last().balance as int
        } else {
            0
        }
    }
}

/// No balance in the ledger is negative.
pub open spec fn ledger_nonnegative(l: Map<(u64, Address), i128>) -> bool {
    forall|k: (u64, Address)| #[trigger] l.contains_key(k) ==> l[k] >= 0
}

/// Releasing a project with a duplicate-free asset list pays out, for each
/// accepted asset, exactly its balance before the release, and leaves that
/// balance at zero; assets with a zero balance get no transfer, every
/// transfer is positive, and no other ledger entry changes.
pub proof fn lemma_release_exact(l: Map<(u64, Address), i128>, project_id: u64, tokens: Seq<Address>)
    requires
        ledger_nonnegative(l),
        tokens.no_duplicates(),
    ensures
        forall|t: Address| #[trigger]
            tokens.contains(t) ==> balance_in(drained(l, project_id, tokens), project_id, t) == 0,
        forall|p: u64, t: Address|
            !(p == project_id && tokens.contains(t)) ==> #[trigger] balance_in(
                drained(l, project_id, tokens),
                p,
                t,
            ) == balance_in(l, p, t),
        forall|t: Address| #[trigger]
            paid(payouts(l, project_id, tokens), t) == if tokens.contains(t) {
                balance_in(l, project_id, t) as int
            } else {
                0
            },
        forall|i: int|
            0 <= i < payouts(l, project_id, tokens).len() ==> #[trigger] payouts(
                l,
                project_id,
                tokens,
            )[i].balance > 0,
    decreases tokens.len(),
{
    if tokens.len() > 0 {
        let rest = tokens.drop_last();
        let x = tokens.last();
        assert(rest.no_duplicates());
        lemma_release_exact(l, project_id, rest);
        assert(!rest.contains(x)) by {
            if rest.contains(x) {
                let j = choose|j: int| 0 <= j < rest.len() && rest[j] == x;
                assert(tokens[j] == tokens[tokens.len() - 1]);
            }
        }
        let prev = drained(l, project_id, rest);
        let b = balance_in(prev, project_id, x);
        assert(b == balance_in(l, project_id, x));
        assert(b >= 0);
        let ps = payouts(l, project_id, rest);
        let now = drained(l, project_id, tokens);
        assert forall|t: Address| #[trigger] tokens.contains(t) implies balance_in(
            now,
            project_id,
            t,
        ) == 0 by {
            if t != x {
                let j = choose|j: int| 0 <= j < tokens.len() && tokens[j] == t;
                assert(rest[j] == t);
                assert(rest.contains(t));
            }
        }
        assert(tokens.contains(x)) by {
            assert(tokens[tokens.len() - 1] == x);
        }
        assert forall|p: u64, t: Address|
            !(p == project_id && tokens.contains(t)) implies #[trigger] balance_in(now, p, t)
            == balance_in(l, p, t) by {
            assert((p, t) != (project_id, x));
            if p == project_id && rest.contains(t) {
                let j = choose|j: int| 0 <= j < rest.len() && rest[j] == t;
                assert(tokens[j] == t);
                assert(tokens.contains(t));
            }
            assert(balance_in(prev, p, t) == balance_in(l, p, t));
            assert(balance_in(now, p, t) == balance_in(prev, p, t));
        }
        let pay = payouts(l, project_id, tokens);
        let e = TokenBalance { token: x, balance: b };
        assert forall|t: Address| #[trigger]
            paid(payouts(l, project_id, tokens), t) == if tokens.contains(t) {
                balance_in(l, project_id, t) as int
            } else {
                0
            } by {
            if b > 0 {
                assert(pay == ps.push(e));
                assert(pay.drop_last() =~= ps);
                assert(pay.last() == e);
                assert(paid(pay, t) == paid(ps, t) + if x == t {
                    b as int
                } else {
                    0
                });
            } else {
                assert(pay == ps);
            }
            if t == x {
                assert(paid(ps, t) == 0);
            } else if rest.contains(t) {
                let j = choose|j: int| 0 <= j < rest.len() && rest[j] == t;
                assert(tokens[j] == t);
                assert(tokens.contains(t));
            } else if tokens.contains(t) {
                let j = choose|j: int| 0 <= j < tokens.len() && tokens[j] == t;
                if j < rest.len() {
                    assert(rest[j] == t);
                }
            }
        }
        assert forall|i: int|
            0 <= i < payouts(l, project_id, tokens).len() implies #[trigger] payouts(
            l,
            project_id,
            tokens,
        )[i].balance > 0 by {
            if i < ps.len() {
                assert(ps[i].balance > 0);
            }
        }
    }
}

} // verus!
