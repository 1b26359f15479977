use crate::ledger::{
    claim_step, create_step, default_bet, join_step, new_bet, players_unique, resolve_step,
    stake_index, stake_of, win_sum, winning_pool_result, Address, BetError, BetView,
    ContractView, PlayerBet, MAX_BET_ID,
};
use crate::proofs::{lemma_stake_index, lemma_win_le_pool, lemma_win_prefix, lemma_winner_in_pool};
use crate::laws::{
    lemma_claim_keeps_wf, lemma_create_keeps_wf, lemma_join_keeps_wf, lemma_resolve_keeps_wf,
};
use crate::wide::mul_div;
use vstd::prelude::*;

verus! {

/// Stored record of one bet.
#[derive(Clone)]
struct Bet {
    organizer: Address,
    event_name: String,
    deadline: u64,
    options: Vec<u128>,
    total_pool: u128,
    resolved: bool,
    winning_option: u128,
    stakes: Vec<PlayerBet>,
}

impl View for Bet {
    type V = BetView;

    closed spec fn view(&self) -> BetView {
        BetView {
            organizer: self.organizer,
            event_name: self.event_name@,
            deadline: self.deadline,
            options: self.options@,
            total_pool: self.total_pool,
            resolved: self.resolved,
            winning_option: self.winning_option,
            stakes: self.stakes@,
        }
    }
}

/// The pooled-wagering ledger: a bet counter and the bets, bet `id` at slot `id - 1`.
#[derive(Clone)]
pub struct BettingContract {
    bet_counter: u64,
    bets: Vec<Bet>,
}

impl View for BettingContract {
    type V = ContractView;

    closed spec fn view(&self) -> ContractView {
        ContractView { bet_counter: self.bet_counter, bets: self.bets@.map_values(|b: Bet| b@) }
    }
}

/// Whether `o` is one of `options`, by a linear scan.
fn contains_option(options: &Vec<u128>, o: u128) -> (r: bool)
    ensures
        r == options@.contains(o),
{
    let mut i: usize = 0;
    while i < options.len()
        invariant
            0 <= i <= options@.len(),
            forall|j: int| 0 <= j < i ==> options@[j] != o,
        decreases options@.len() - i,
    {
        if options[i] == o {
            assert(options@[i as int] == o);
            return true;
        }
        i += 1;
    }
    false
}

/// Position of `p`'s stake, if any.
fn find_stake(stakes: &Vec<PlayerBet>, p: Address) -> (r: Option<usize>)
    requires
        players_unique(stakes@),
    ensures
        match r {
            Some(k) => k == stake_index(stakes@, p) && k < stakes@.len(),
            None => stake_index(stakes@, p) == -1,
        },
{
    proof {
        lemma_stake_index(stakes@, p);
    }
    let mut i: usize = 0;
    while i < stakes.len()
        invariant
            0 <= i <= stakes@.len(),
            forall|j: int| 0 <= j < i ==> stakes@[j].player != p,
            players_unique(stakes@),
        decreases stakes@.len() - i,
    {
        if stakes[i].player == p {
            proof {
                lemma_stake_index(stakes@, p);
            }
            assert(stakes@[i as int].player == p);
            return Some(i);
        }
        i += 1;
    }
    None
}

impl BettingContract {
    /// An empty ledger: counter zero, no bets.
    pub fn new() -> (r: BettingContract)
        ensures
            r@.wf(),
            r@.bet_counter == 0,
            r@.bets.len() == 0,
    {
        let r = BettingContract { bet_counter: 0, bets: Vec::new() };
        assert(r@.bets =~= Seq::<BetView>::empty());
        r
    }

    /// The slot of bet `bet_id`, if it exists.
    fn bet_slot(&self, bet_id: u64) -> (r: Option<usize>)
        ensures
            match r {
                Some(i) => self@.has_bet(bet_id) && i == bet_id - 1 && i < self.bets@.len()
                    && self.bets@[i as int]@ == self@.bet(bet_id),
                None => !self@.has_bet(bet_id) && self@.bet(bet_id) == default_bet(),
            },
    {
        if bet_id >= 1 && bet_id - 1 < self.bets.len() as u64 {
            let i = (bet_id - 1) as usize;
            Some(i)
        } else {
            None
        }
    }

    /// The number of the last bet created.
    pub fn bet_counter(&self) -> (r: u64)
        ensures
            r == self@.bet_counter,
    {
        self.bet_counter
    }

    /// Opens a bet organised by `caller`; its id is the counter plus one,
    /// saturating at `MAX_BET_ID`.
    pub fn create_bet(
        &mut self,
        caller: Address,
        event_name: String,
        deadline: u64,
        options: Vec<u128>,
    ) -> (r: Result<u64, BetError>)
        requires
            old(self)@.wf(),
        ensures
            final(self)@.wf(),
            (final(self)@, r) == create_step(old(self)@, caller, event_name@, deadline, options@),
    {
        proof {
            lemma_create_keeps_wf(self@, caller, event_name@, deadline, options@);
        }
        if options.len() == 0 {
            return Err(BetError::InvalidInput);
        }
        let ghost nb = new_bet(caller, event_name@, deadline, options@);
        let bet = Bet {
            organizer: caller,
            event_name,
            deadline,
            options,
            total_pool: 0,
            resolved: false,
            winning_option: 0,
            stakes: Vec::new(),
        };
        assert(bet@.stakes =~= Seq::<PlayerBet>::empty());
        assert(bet@ == nb);
        if self.bet_counter < MAX_BET_ID {
            self.bet_counter = self.bet_counter + 1;
            self.bets.push(bet);
            assert(self@.bets =~= old(self)@.bets.push(nb));
            Ok(self.bet_counter)
        } else {
            let last = self.bets.len() - 1;
            self.bets.set(last, bet);
            assert(self@.bets =~= old(self)@.bets.update(last as int, nb));
            Ok(MAX_BET_ID)
        }
    }

    /// Records `caller`'s stake of `value` on `option` in bet `bet_id`.
    /// A participant stakes once per bet; a second join is refused.
    pub fn join_bet(&mut self, caller: Address, bet_id: u64, option: u128, value: u128) -> (r:
        Result<(), BetError>)
        requires
            old(self)@.wf(),
        ensures
            final(self)@.wf(),
            (final(self)@, r) == join_step(old(self)@, caller, bet_id, option, value),
    {
        proof {
            lemma_join_keeps_wf(self@, caller, bet_id, option, value);
        }
        let i = match self.bet_slot(bet_id) {
            Some(i) => i,
            None => {
                assert(!default_bet().options.contains(option));
                return Err(BetError::InvalidOption);
            },
        };
        assert(self@.bets[i as int] == self.bets@[i as int]@);
        if self.bets[i].resolved {
            return Err(BetError::AlreadyResolved);
        }
        if !contains_option(&self.bets[i].options, option) {
            return Err(BetError::InvalidOption);
        }
        if value == 0 {
            return Err(BetError::ZeroStake);
        }
        if find_stake(&self.bets[i].stakes, caller).is_some() {
            return Err(BetError::AlreadyJoined);
        }
        if value > u128::MAX - self.bets[i].total_pool {
            return Err(BetError::PoolOverflow);
        }
        let total = self.bets[i].total_pool + value;
        self.bets[i].stakes.push(PlayerBet { player: caller, amount: value, option, claimed: false });
        self.bets[i].total_pool = total;
        assert(self@.bets =~= join_step(old(self)@, caller, bet_id, option, value).0.bets);
        Ok(())
    }

    /// The organizer of bet `bet_id` fixes its winning option, once.
    pub fn resolve_bet(&mut self, caller: Address, bet_id: u64, winning_option: u128) -> (r:
        Result<(), BetError>)
        requires
            old(self)@.wf(),
        ensures
            final(self)@.wf(),
            (final(self)@, r) == resolve_step(old(self)@, caller, bet_id, winning_option),
    {
        proof {
            lemma_resolve_keeps_wf(self@, caller, bet_id, winning_option);
        }
        let i = match self.bet_slot(bet_id) {
            Some(i) => i,
            None => {
                assert(!default_bet().options.contains(winning_option));
                if caller == Address::zero() {
                    return Err(BetError::InvalidOption);
                }
                return Err(BetError::Unauthorized);
            },
        };
        assert(self@.bets[i as int] == self.bets@[i as int]@);
        if self.bets[i].organizer != caller {
            return Err(BetError::Unauthorized);
        }
        if self.bets[i].resolved {
            return Err(BetError::AlreadyResolved);
        }
        if !contains_option(&self.bets[i].options, winning_option) {
            return Err(BetError::InvalidOption);
        }
        self.bets[i].resolved = true;
        self.bets[i].winning_option = winning_option;
        assert(self@.bets =~= resolve_step(old(self)@, caller, bet_id, winning_option).0.bets);
        Ok(())
    }

    /// The amount staked on bet `bet_id`'s winning option, summed over its
    /// participants; `NoWinners` when that sum is zero.
    pub fn calculate_winning_pool(&self, bet_id: u64) -> (r: Result<u128, BetError>)
        requires
            self@.wf(),
        ensures
            r == winning_pool_result(self@, bet_id),
    {
        let i = match self.bet_slot(bet_id) {
            Some(i) => i,
            None => {
                return Err(BetError::NoWinners);
            },
        };
        assert(self@.bets[i as int] == self.bets@[i as int]@);
        let bet = &self.bets[i];
        let ghost s = bet.stakes@;
        let w = bet.winning_option;
        proof {
            lemma_win_le_pool(s, w);
        }
        let mut sum: u128 = 0;
        let mut j: usize = 0;
        while j < bet.stakes.len()
            invariant
                s == bet.stakes@,
                w == bet.winning_option,
                0 <= j <= s.len(),
                sum == win_sum(s.subrange(0, j as int), w),
                win_sum(s, w) <= bet.total_pool,
            decreases s.len() - j,
        {
            proof {
                assert(s.subrange(0, j + 1).drop_last() =~= s.subrange(0, j as int));
                lemma_win_prefix(s, w, j + 1);
            }
            if bet.stakes[j].option == w {
                sum = sum + bet.stakes[j].amount;
            }
            j += 1;
        }
        assert(s.subrange(0, s.len() as int) =~= s);
        if sum == 0 {
            return Err(BetError::NoWinners);
        }
        Ok(sum)
    }

    /// Marks `caller`'s winning stake in bet `bet_id` as claimed and returns
    /// the prize to pay out, `floor(amount * total_pool / winning_pool)`.
    /// The record is written before the prize leaves, so a second claim is
    /// refused whatever the payment does.
    pub fn claim_prize(&mut self, caller: Address, bet_id: u64) -> (r: Result<u128, BetError>)
        requires
            old(self)@.wf(),
        ensures
            final(self)@.wf(),
            (final(self)@, r) == claim_step(old(self)@, caller, bet_id),
    {
        proof {
            lemma_claim_keeps_wf(self@, caller, bet_id);
        }
        let i = match self.bet_slot(bet_id) {
            Some(i) => i,
            None => {
                return Err(BetError::NotResolved);
            },
        };
        assert(self@.bets[i as int] == self.bets@[i as int]@);
        if !self.bets[i].resolved {
            return Err(BetError::NotResolved);
        }
        let k = match find_stake(&self.bets[i].stakes, caller) {
            Some(k) => k,
            None => {
                return Err(BetError::NoStake);
            },
        };
        let stake = self.bets[i].stakes[k];
        if stake.claimed {
            return Err(BetError::AlreadyClaimed);
        }
        if stake.option != self.bets[i].winning_option {
            return Err(BetError::NotAWinner);
        }
        let ghost b = self@.bet(bet_id);
        proof {
            assert(self@.bets[i as int].wf());
            assert(stake == b.stakes[k as int]);
            assert(stake.amount > 0);
            lemma_winner_in_pool(b.stakes, stake.option, k as int);
            lemma_win_le_pool(b.stakes, stake.option);
        }
        let pool = match self.calculate_winning_pool(bet_id) {
            Ok(p) => p,
            Err(e) => {
                return Err(e);
            },
        };
        assert(pool as nat == b.winning_pool());
        let amount = mul_div(stake.amount, self.bets[i].total_pool, pool);
        self.bets[i].stakes.set(k, PlayerBet { claimed: true, ..stake });
        assert(self@.bets =~= claim_step(old(self)@, caller, bet_id).0.bets);
        Ok(amount)
    }

    /// The organizer of bet `bet_id`; the zero address for a missing bet.
    pub fn get_bet_organizer(&self, bet_id: u64) -> (r: Address)
        ensures
            r == self@.bet(bet_id).organizer,
    {
        match self.bet_slot(bet_id) {
            Some(i) => {
                assert(self@.bets[i as int] == self.bets@[i as int]@);
                self.bets[i].organizer
            },
            None => Address::zero(),
        }
    }

    /// The advisory deadline of bet `bet_id`; zero for a missing bet.
    pub fn get_bet_deadline(&self, bet_id: u64) -> (r: u64)
        ensures
            r == self@.bet(bet_id).deadline,
    {
        match self.bet_slot(bet_id) {
            Some(i) => {
                assert(self@.bets[i as int] == self.bets@[i as int]@);
                self.bets[i].deadline
            },
            None => 0,
        }
    }

    /// The sum of the stakes in bet `bet_id`; zero for a missing bet.
    pub fn get_bet_total_pool(&self, bet_id: u64) -> (r: u128)
        ensures
            r == self@.bet(bet_id).total_pool,
    {
        match self.bet_slot(bet_id) {
            Some(i) => {
                assert(self@.bets[i as int] == self.bets@[i as int]@);
                self.bets[i].total_pool
            },
            None => 0,
        }
    }

    /// Whether bet `bet_id` is resolved; false for a missing bet.
    pub fn get_bet_resolved(&self, bet_id: u64) -> (r: bool)
        ensures
            r == self@.bet(bet_id).resolved,
    {
        match self.bet_slot(bet_id) {
            Some(i) => {
                assert(self@.bets[i as int] == self.bets@[i as int]@);
                self.bets[i].resolved
            },
            None => false,
        }
    }

    /// The winning option of bet `bet_id` (zero until resolved); zero for a missing bet.
    pub fn get_bet_winning_option(&self, bet_id: u64) -> (r: u128)
        ensures
            r == self@.bet(bet_id).winning_option,
    {
        match self.bet_slot(bet_id) {
            Some(i) => {
                assert(self@.bets[i as int] == self.bets@[i as int]@);
                self.bets[i].winning_option
            },
            None => 0,
        }
    }

    /// The options of bet `bet_id`, in order; empty for a missing bet.
    pub fn get_bet_options(&self, bet_id: u64) -> (r: Vec<u128>)
        ensures
            r@ == self@.bet(bet_id).options,
    {
        match self.bet_slot(bet_id) {
            Some(i) => {
                assert(self@.bets[i as int] == self.bets@[i as int]@);
                let options = &self.bets[i].options;
                let mut out: Vec<u128> = Vec::with_capacity(options.len());
                let mut j: usize = 0;
                while j < options.len()
                    invariant
                        0 <= j <= options@.len(),
                        out@ =~= options@.subrange(0, j as int),
                    decreases options@.len() - j,
                {
                    out.push(options[j]);
                    j += 1;
                }
                out
            },
            None => {
                let out: Vec<u128> = Vec::new();
                assert(out@ =~= default_bet().options);
                out
            },
        }
    }

    /// The participants of bet `bet_id`, in the order they joined; empty for
    /// a missing bet.
    pub fn get_bet_players(&self, bet_id: u64) -> (r: Vec<Address>)
        ensures
            r@ == self@.bet(bet_id).stakes.map_values(|s: PlayerBet| s.player),
    {
        match self.bet_slot(bet_id) {
            Some(i) => {
                assert(self@.bets[i as int] == self.bets@[i as int]@);
                let stakes = &self.bets[i].stakes;
                let mut out: Vec<Address> = Vec::with_capacity(stakes.len());
                let mut j: usize = 0;
                while j < stakes.len()
                    invariant
                        0 <= j <= stakes@.len(),
                        out@ =~= stakes@.subrange(0, j as int).map_values(|s: PlayerBet| s.player),
                    decreases stakes@.len() - j,
                {
                    out.push(stakes[j].player);
                    j += 1;
                }
                assert(stakes@.subrange(0, stakes@.len() as int) =~= stakes@);
                out
            },
            None => {
                let out: Vec<Address> = Vec::new();
                assert(out@ =~= default_bet().stakes.map_values(|s: PlayerBet| s.player));
                out
            },
        }
    }

    /// `player`'s stake record in bet `bet_id`; a zero record when there is none.
    fn player_bet(&self, bet_id: u64, player: Address) -> (r: PlayerBet)
        requires
            self@.wf(),
        ensures
            r == stake_of(self@.bet(bet_id).stakes, player),
    {
        match self.bet_slot(bet_id) {
            Some(i) => {
                assert(self@.bets[i as int] == self.bets@[i as int]@);
                assert(self@.bets[i as int].wf());
                match find_stake(&self.bets[i].stakes, player) {
                    Some(k) => self.bets[i].stakes[k],
                    None => PlayerBet { player, amount: 0, option: 0, claimed: false },
                }
            },
            None => PlayerBet { player, amount: 0, option: 0, claimed: false },
        }
    }

    /// The amount `player` staked in bet `bet_id`; zero when there is no stake.
    pub fn get_player_bet_amount(&self, bet_id: u64, player: Address) -> (r: u128)
        requires
            self@.wf(),
        ensures
            r == stake_of(self@.bet(bet_id).stakes, player).amount,
    {
        self.player_bet(bet_id, player).amount
    }

    /// The option `player` chose in bet `bet_id`; zero when there is no stake.
    pub fn get_player_bet_option(&self, bet_id: u64, player: Address) -> (r: u128)
        requires
            self@.wf(),
        ensures
            r == stake_of(self@.bet(bet_id).stakes, player).option,
    {
        self.player_bet(bet_id, player).option
    }

    /// Whether `player` has claimed in bet `bet_id`; false when there is no stake.
    pub fn get_player_bet_claimed(&self, bet_id: u64, player: Address) -> (r: bool)
        requires
            self@.wf(),
        ensures
            r == stake_of(self@.bet(bet_id).stakes, player).claimed,
    {
        self.player_bet(bet_id, player).claimed
    }
}

} // verus!
