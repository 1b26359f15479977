use crate::ledger::{
    claim_step, create_step, join_step, new_bet, pool_sum, resolve_step, stake_index,
    Address, BetError, ContractView,
};
use crate::proofs::{
    claimed_stake, lemma_claim_sums, lemma_paid_scaled, lemma_paid_zero_pool, lemma_stake_index,
    lemma_winner_in_pool,
};
use vstd::prelude::*;

verus! {

/// `create` keeps the ledger well formed: the counter matches the bets and
/// every bet has options, a pool equal to its stakes, and unique participants.
pub proof fn lemma_create_keeps_wf(
    v: ContractView,
    caller: Address,
    event_name: Seq<char>,
    deadline: u64,
    options: Seq<u128>,
)
    requires
        v.wf(),
    ensures
        create_step(v, caller, event_name, deadline, options).0.wf(),
{
    let v2 = create_step(v, caller, event_name, deadline, options).0;
    if options.len() > 0 {
        let nb = new_bet(caller, event_name, deadline, options);
        assert(pool_sum(nb.stakes) == 0);
        assert(nb.wf());
        assert forall|i: int| 0 <= i < v2.bets.len() implies (#[trigger] v2.bets[i]).wf() by {
            if v2.bets[i] != nb {
                assert(v2.bets[i] == v.bets[i]);
            }
        }
    }
}

/// `join` keeps the ledger well formed; in particular the pool stays the sum
/// of the recorded stakes.
pub proof fn lemma_join_keeps_wf(
    v: ContractView,
    caller: Address,
    id: u64,
    option: u128,
    value: u128,
)
    requires
        v.wf(),
    ensures
        join_step(v, caller, id, option, value).0.wf(),
{
    let (v2, r) = join_step(v, caller, id, option, value);
    if r is Ok {
        let b = v.bet(id);
        assert(v.has_bet(id));
        assert(b == v.bets[id - 1]);
        assert(b.wf());
        lemma_stake_index(b.stakes, caller);
        let nb = v2.bets[id - 1];
        assert(nb.stakes.drop_last() =~= b.stakes);
        assert(nb.wf());
        assert forall|i: int| 0 <= i < v2.bets.len() implies (#[trigger] v2.bets[i]).wf() by {
            if i != id - 1 {
                assert(v2.bets[i] == v.bets[i]);
            }
        }
    }
}

/// `resolve` keeps the ledger well formed: the winning option is one of the
/// bet's options.
pub proof fn lemma_resolve_keeps_wf(v: ContractView, caller: Address, id: u64, winning: u128)
    requires
        v.wf(),
    ensures
        resolve_step(v, caller, id, winning).0.wf(),
{
    let (v2, r) = resolve_step(v, caller, id, winning);
    if r is Ok {
        let b = v.bet(id);
        assert(v.has_bet(id));
        assert(b == v.bets[id - 1]);
        assert(b.wf());
        let nb = v2.bets[id - 1];
        assert(nb.wf());
        assert forall|i: int| 0 <= i < v2.bets.len() implies (#[trigger] v2.bets[i]).wf() by {
            if i != id - 1 {
                assert(v2.bets[i] == v.bets[i]);
            }
        }
    }
}

/// `claim` keeps the ledger well formed: only a winning stake of a resolved
/// bet is ever marked claimed.
pub proof fn lemma_claim_keeps_wf(v: ContractView, caller: Address, id: u64)
    requires
        v.wf(),
    ensures
        claim_step(v, caller, id).0.wf(),
{
    let (v2, r) = claim_step(v, caller, id);
    if r is Ok {
        let b = v.bet(id);
        assert(v.has_bet(id));
        assert(b == v.bets[id - 1]);
        assert(b.wf());
        lemma_stake_index(b.stakes, caller);
        let k = stake_index(b.stakes, caller);
        lemma_claim_sums(b.stakes, k, b.winning_option, 0, 0);
        let nb = v2.bets[id - 1];
        assert(nb.stakes == b.stakes.update(k, claimed_stake(b.stakes[k])));
        assert(nb.wf());
        assert forall|i: int| 0 <= i < v2.bets.len() implies (#[trigger] v2.bets[i]).wf() by {
            if i != id - 1 {
                assert(v2.bets[i] == v.bets[i]);
            }
        }
    }
}

/// One `join` call on a bet: who joins, on which option, with what stake.
pub struct JoinCall {
    pub player: Address,
    pub option: u128,
    pub value: u128,
}

/// The ledger after `calls` are made in order on bet `id`, or `None` as soon
/// as one of them is refused.
pub open spec fn run_joins(v: ContractView, id: u64, calls: Seq<JoinCall>) -> Option<ContractView>
    decreases calls.len(),
{
    if calls.len() == 0 {
        Some(v)
    } else {
        match run_joins(v, id, calls.drop_last()) {
            Some(u) => {
                let c = calls.last();
                let (u2, r) = join_step(u, c.player, id, c.option, c.value);
                if r is Ok {
                    Some(u2)
                } else {
                    None
                }
            },
            None => None,
        }
    }
}

/// Sum of the stakes attached to `calls`.
pub open spec fn attached_total(calls: Seq<JoinCall>) -> nat
    decreases calls.len(),
{
    if calls.len() == 0 {
        0
    } else {
        attached_total(calls.drop_last()) + calls.last().value as nat
    }
}

/// Over any run of successful joins on a bet, its pool grows by exactly the
/// stakes attached to them, and it stays the sum of the recorded stakes.
pub proof fn lemma_joins_sum_stakes(v: ContractView, id: u64, calls: Seq<JoinCall>)
    requires
        v.wf(),
    ensures
        match run_joins(v, id, calls) {
            Some(u) => {
                &&& u.wf()
                &&& u.bet(id).total_pool == v.bet(id).total_pool + attached_total(calls)
                &&& u.bet(id).total_pool == pool_sum(u.bet(id).stakes)
            },
            None => true,
        },
    decreases calls.len(),
{
    if calls.len() > 0 {
        lemma_joins_sum_stakes(v, id, calls.drop_last());
        match run_joins(v, id, calls.drop_last()) {
            Some(u) => {
                let c = calls.last();
                lemma_join_keeps_wf(u, c.player, id, c.option, c.value);
                let (u2, r) = join_step(u, c.player, id, c.option, c.value);
                if r is Ok {
                    assert(u.has_bet(id));
                    assert(u2.bet(id) == u2.bets[id - 1]);
                    assert(u2.bets[id - 1].wf());
                }
            },
            None => {},
        }
    } else {
        if v.has_bet(id) {
            assert(v.bets[id - 1].wf());
        }
    }
}

/// Once a bet has been resolved, every later `resolve` of it fails and leaves
/// the ledger unchanged; from the organizer it fails with `AlreadyResolved`
/// (anyone else is turned away as `Unauthorized` first).
pub proof fn lemma_resolve_once(
    v: ContractView,
    caller: Address,
    id: u64,
    winning: u128,
    caller2: Address,
    winning2: u128,
)
    requires
        v.wf(),
    ensures
        resolve_step(v, caller, id, winning).1 is Ok ==> {
            let v2 = resolve_step(v, caller, id, winning).0;
            let (v3, r2) = resolve_step(v2, caller2, id, winning2);
            &&& v3 == v2
            &&& r2 is Err
            &&& caller2 == v.bet(id).organizer ==> r2 == Err::<(), BetError>(
                BetError::AlreadyResolved,
            )
        },
{
    let (v2, r) = resolve_step(v, caller, id, winning);
    if r is Ok {
        assert(v.has_bet(id));
        assert(v2.bet(id) == v2.bets[id - 1]);
    }
}

/// A participant's claim on a bet succeeds at most once: right after a
/// successful claim, the same claim fails with `AlreadyClaimed` and changes
/// nothing.
pub proof fn lemma_claim_once(v: ContractView, caller: Address, id: u64)
    requires
        v.wf(),
    ensures
        claim_step(v, caller, id).1 is Ok ==> {
            let v2 = claim_step(v, caller, id).0;
            claim_step(v2, caller, id) == (v2, Err::<u128, BetError>(BetError::AlreadyClaimed))
        },
{
    let (v2, r) = claim_step(v, caller, id);
    if r is Ok {
        lemma_claim_keeps_wf(v, caller, id);
        let b = v.bet(id);
        assert(v.has_bet(id));
        assert(b.wf());
        lemma_stake_index(b.stakes, caller);
        let k = stake_index(b.stakes, caller);
        let b2 = v2.bet(id);
        assert(b2 == v2.bets[id - 1]);
        assert(b2.wf());
        lemma_stake_index(b2.stakes, caller);
        assert(b2.stakes[k].player == caller);
        assert(stake_index(b2.stakes, caller) == k);
    }
}

/// No claim succeeds on a bet that is not resolved: it fails with
/// `NotResolved` and changes nothing.
pub proof fn lemma_claim_needs_resolution(v: ContractView, caller: Address, id: u64)
    requires
        !v.bet(id).resolved,
    ensures
        claim_step(v, caller, id) == (v, Err::<u128, BetError>(BetError::NotResolved)),
{
}

/// The prizes claimed from a bet never add up to more than its pool.
pub proof fn lemma_paid_out_within_pool(v: ContractView, id: u64)
    requires
        v.wf(),
    ensures
        v.bet(id).paid_out() <= v.bet(id).total_pool,
{
    let b = v.bet(id);
    if v.has_bet(id) {
        assert(b.wf());
    }
    let w = b.winning_option;
    let t = b.total_pool as nat;
    let p = b.winning_pool();
    if p == 0 {
        lemma_paid_zero_pool(b.stakes, w, t);
    } else {
        lemma_paid_scaled(b.stakes, w, t, p);
        let paid = b.paid_out();
        assert(paid * p <= p * t);
        assert(paid <= t) by (nonlinear_arith)
            requires
                paid * p <= p * t,
                p > 0,
        ;
    }
}

/// A successful claim adds exactly the prize it returns to what the bet has
/// paid out, and leaves the pool as it was.
pub proof fn lemma_claim_pays_prize(v: ContractView, caller: Address, id: u64)
    requires
        v.wf(),
    ensures
        claim_step(v, caller, id).1 is Ok ==> {
            let v2 = claim_step(v, caller, id).0;
            let p = claim_step(v, caller, id).1->Ok_0;
            &&& v2.bet(id).total_pool == v.bet(id).total_pool
            &&& v2.bet(id).paid_out() == v.bet(id).paid_out() + p
        },
{
    let (v2, r) = claim_step(v, caller, id);
    if r is Ok {
        let b = v.bet(id);
        assert(v.has_bet(id));
        assert(b.wf());
        lemma_stake_index(b.stakes, caller);
        let k = stake_index(b.stakes, caller);
        let w = b.winning_option;
        let t = b.total_pool as nat;
        let pool = b.winning_pool();
        lemma_claim_sums(b.stakes, k, w, t, pool);
        lemma_winner_in_pool(b.stakes, w, k);
        let b2 = v2.bet(id);
        assert(b2 == v2.bets[id - 1]);
        assert(b2.stakes == b.stakes.update(k, claimed_stake(b.stakes[k])));
        assert(b2.winning_pool() == pool);
        let a = b.stakes[k].amount as nat;
        assert(a <= pool);
        assert(a * t <= pool * t) by (nonlinear_arith)
            requires
                a <= pool,
                t >= 0,
        ;
        vstd::arithmetic::div_mod::lemma_div_is_ordered((a * t) as int, (pool * t) as int, pool as int);
        vstd::arithmetic::div_mod::lemma_div_multiples_vanish(t as int, pool as int);
        assert(pool * t == t * pool) by (nonlinear_arith);
    }
}

} // verus!
