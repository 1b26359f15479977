use crate::ledger::{players_unique, pool_sum, prize, stake_index, paid_sum, win_sum, Address, PlayerBet};
use vstd::prelude::*;

verus! {

/// The stake a claim marks as paid: the same record with `claimed` set.
pub open spec fn claimed_stake(s: PlayerBet) -> PlayerBet {
    PlayerBet { claimed: true, ..s }
}

pub(crate) proof fn lemma_stake_index(s: Seq<PlayerBet>, p: Address)
    requires
        players_unique(s),
    ensures
        stake_index(s, p) >= 0 ==> 0 <= stake_index(s, p) < s.len() && s[stake_index(s, p)].player
            == p,
        stake_index(s, p) < 0 ==> stake_index(s, p) == -1,
        stake_index(s, p) < 0 ==> forall|i: int| 0 <= i < s.len() ==> s[i].player != p,
        forall|i: int| #![trigger s[i]] 0 <= i < s.len() && s[i].player == p ==> stake_index(s, p) == i,
{
    assert forall|i: int| #![trigger s[i]] 0 <= i < s.len() && s[i].player == p implies stake_index(s, p) == i by {
        let k = stake_index(s, p);
        assert(0 <= k < s.len() && s[k].player == p);
        if k < i {
            assert(s[k].player != s[i].player);
        } else if i < k {
            assert(s[i].player != s[k].player);
        }
    }
}

pub(crate) proof fn lemma_win_le_pool(s: Seq<PlayerBet>, w: u128)
    ensures
        win_sum(s, w) <= pool_sum(s),
    decreases s.len(),
{
    if s.len() > 0 {
        lemma_win_le_pool(s.drop_last(), w);
    }
}

pub(crate) proof fn lemma_win_prefix(s: Seq<PlayerBet>, w: u128, i: int)
    requires
        0 <= i <= s.len(),
    ensures
        win_sum(s.subrange(0, i), w) <= win_sum(s, w),
    decreases s.len(),
{
    if i < s.len() {
        assert(s.subrange(0, i) =~= s.drop_last().subrange(0, i));
        lemma_win_prefix(s.drop_last(), w, i);
    } else {
        assert(s.subrange(0, i) =~= s);
    }
}

pub(crate) proof fn lemma_winner_in_pool(s: Seq<PlayerBet>, w: u128, k: int)
    requires
        0 <= k < s.len(),
        s[k].option == w,
    ensures
        s[k].amount <= win_sum(s, w),
    decreases s.len(),
{
    if k < s.len() - 1 {
        assert(s.drop_last()[k] == s[k]);
        lemma_winner_in_pool(s.drop_last(), w, k);
    }
}

/// Setting `claimed` on one stake leaves the sums of amounts alone and adds
/// that stake's prize to the paid sum when it is an unclaimed winner.
pub(crate) proof fn lemma_claim_sums(s: Seq<PlayerBet>, k: int, w: u128, total: nat, pool: nat)
    requires
        0 <= k < s.len(),
    ensures
        pool_sum(s.update(k, claimed_stake(s[k]))) == pool_sum(s),
        win_sum(s.update(k, claimed_stake(s[k])), w) == win_sum(s, w),
        !s[k].claimed && s[k].option == w ==> paid_sum(s.update(k, claimed_stake(s[k])), w, total, pool)
            == paid_sum(s, w, total, pool) + prize(s[k].amount as nat, total, pool),
    decreases s.len(),
{
    let t = s.update(k, claimed_stake(s[k]));
    if k == s.len() - 1 {
        assert(t.drop_last() =~= s.drop_last());
    } else {
        let d = s.drop_last();
        assert(d[k] == s[k]);
        assert(t.drop_last() =~= d.update(k, claimed_stake(d[k])));
        lemma_claim_sums(d, k, w, total, pool);
    }
}

/// Each paid prize is at most its stake's share of `total`, so the paid sum,
/// scaled by the pool, stays within the winning stakes scaled by `total`.
pub(crate) proof fn lemma_paid_scaled(s: Seq<PlayerBet>, w: u128, total: nat, pool: nat)
    requires
        pool > 0,
    ensures
        paid_sum(s, w, total, pool) * pool <= win_sum(s, w) * total,
    decreases s.len(),
{
    if s.len() > 0 {
        let d = s.drop_last();
        lemma_paid_scaled(d, w, total, pool);
        let a = s.last().amount as nat;
        let x: nat = if s.last().claimed && s.last().option == w {
            prize(a, total, pool)
        } else {
            0
        };
        let y: nat = if s.last().option == w {
            a
        } else {
            0
        };
        let n = a * total;
        vstd::arithmetic::div_mod::lemma_fundamental_div_mod(n as int, pool as int);
        assert(pool * (n / pool) <= n);
        assert(x * pool <= y * total) by (nonlinear_arith)
            requires
                x == 0 || (x == n / pool && y == a),
                n == a * total,
                pool * (n / pool) <= n,
                y >= 0,
                total >= 0,
        ;
        let pd = paid_sum(d, w, total, pool);
        let wd = win_sum(d, w);
        assert((pd + x) * pool <= (wd + y) * total) by (nonlinear_arith)
            requires
                pd * pool <= wd * total,
                x * pool <= y * total,
        ;
        assert(paid_sum(s, w, total, pool) == pd + x);
        assert(win_sum(s, w) == wd + y);
        let ps = paid_sum(s, w, total, pool);
        let ws = win_sum(s, w);
        assert(ps * pool <= ws * total) by (nonlinear_arith)
            requires
                ps == pd + x,
                ws == wd + y,
                (pd + x) * pool <= (wd + y) * total,
        ;
    } else {
        assert(0 * pool <= 0 * total) by (nonlinear_arith);
    }
}

/// With an empty winning pool every prize is zero.
pub(crate) proof fn lemma_paid_zero_pool(s: Seq<PlayerBet>, w: u128, total: nat)
    ensures
        paid_sum(s, w, total, 0) == 0,
    decreases s.len(),
{
    if s.len() > 0 {
        lemma_paid_zero_pool(s.drop_last(), w, total);
    }
}

} // verus!
