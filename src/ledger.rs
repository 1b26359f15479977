use vstd::prelude::*;

verus! {

/// Largest bet id; the counter saturates here.
pub const MAX_BET_ID: u64 = 0xffff_ffff_ffff_ffff;

/// A 160-bit account identity, held as its upper 32 bits and lower 128 bits.
#[derive(Clone, Copy, Debug, PartialEq, Eq, Structural)]
pub struct Address {
    pub high: u32,
    pub low: u128,
}

impl Address {
    pub open spec fn zero_spec() -> Address {
        Address { high: 0, low: 0 }
    }

    /// The all-zero identity, which is what a missing bet reports as organizer.
    pub fn zero() -> (r: Address)
        ensures
            r == Address::zero_spec(),
    {
        Address { high: 0, low: 0 }
    }
}

/// Why a ledger operation was refused.
#[derive(Clone, Copy, Debug, PartialEq, Eq, Structural)]
pub enum BetError {
    InvalidInput,
    AlreadyResolved,
    InvalidOption,
    ZeroStake,
    AlreadyJoined,
    PoolOverflow,
    Unauthorized,
    NoWinners,
    NotResolved,
    NoStake,
    AlreadyClaimed,
    NotAWinner,
    TransferFailed,
}

/// One participant's stake in one bet.
#[derive(Clone, Copy, Debug, PartialEq, Eq, Structural)]
pub struct PlayerBet {
    pub player: Address,
    pub amount: u128,
    pub option: u128,
    pub claimed: bool,
}

/// Mathematical model of one bet.
pub struct BetView {
    pub organizer: Address,
    pub event_name: Seq<char>,
    pub deadline: u64,
    pub options: Seq<u128>,
    pub total_pool: u128,
    pub resolved: bool,
    pub winning_option: u128,
    pub stakes: Seq<PlayerBet>,
}

/// Mathematical model of the whole ledger: bet `id` is `bets[id - 1]`.
pub struct ContractView {
    pub bet_counter: u64,
    pub bets: Seq<BetView>,
}

/// What a missing bet reads as: every field zero or empty.
pub open spec fn default_bet() -> BetView {
    BetView {
        organizer: Address::zero_spec(),
        event_name: Seq::empty(),
        deadline: 0,
        options: Seq::empty(),
        total_pool: 0,
        resolved: false,
        winning_option: 0,
        stakes: Seq::empty(),
    }
}

/// Sum of all staked amounts.
pub open spec fn pool_sum(s: Seq<PlayerBet>) -> nat
    decreases s.len(),
{
    if s.len() == 0 {
        0
    } else {
        pool_sum(s.drop_last()) + s.last().amount as nat
    }
}

/// Sum of the amounts staked on option `w`.
pub open spec fn win_sum(s: Seq<PlayerBet>, w: u128) -> nat
    decreases s.len(),
{
    if s.len() == 0 {
        0
    } else {
        win_sum(s.drop_last(), w) + if s.last().option == w {
            s.last().amount as nat
        } else {
            0
        }
    }
}

/// A winner's share: `floor(amount * total / pool)`.
pub open spec fn prize(amount: nat, total: nat, pool: nat) -> nat {
    if pool == 0 {
        0
    } else {
        amount * total / pool
    }
}

/// Sum of the prizes owed to the stakes on `w` that have been claimed.
pub open spec fn paid_sum(s: Seq<PlayerBet>, w: u128, total: nat, pool: nat) -> nat
    decreases s.len(),
{
    if s.len() == 0 {
        0
    } else {
        paid_sum(s.drop_last(), w, total, pool) + if s.last().claimed && s.last().option == w {
            prize(s.last().amount as nat, total, pool)
        } else {
            0
        }
    }
}

/// Position of `p`'s stake, or -1 when `p` has none.
pub open spec fn stake_index(s: Seq<PlayerBet>, p: Address) -> int {
    if exists|i: int| 0 <= i < s.len() && s[i].player == p {
        choose|i: int| 0 <= i < s.len() && s[i].player == p
    } else {
        -1
    }
}

/// `p`'s stake, or a zero stake when there is none.
pub open spec fn stake_of(s: Seq<PlayerBet>, p: Address) -> PlayerBet {
    let k = stake_index(s, p);
    if k >= 0 {
        s[k]
    } else {
        PlayerBet { player: p, amount: 0, option: 0, claimed: false }
    }
}

pub open spec fn players_unique(s: Seq<PlayerBet>) -> bool {
    forall|i: int, j: int| 0 <= i < j < s.len() ==> s[i].player != s[j].player
}

impl BetView {
    /// The amount staked on the winning option.
    pub open spec fn winning_pool(self) -> nat {
        win_sum(self.stakes, self.winning_option)
    }

    /// Sum of the prizes already claimed from this bet.
    pub open spec fn paid_out(self) -> nat {
        paid_sum(self.stakes, self.winning_option, self.total_pool as nat, self.winning_pool())
    }

    pub open spec fn wf(self) -> bool {
        &&& self.options.len() > 0
        &&& self.total_pool == pool_sum(self.stakes)
        &&& self.resolved ==> self.options.contains(self.winning_option)
        &&& players_unique(self.stakes)
        &&& forall|i: int|
            #![trigger self.stakes[i]]
            0 <= i < self.stakes.len() ==> {
                &&& self.stakes[i].amount > 0
                &&& self.options.contains(self.stakes[i].option)
                &&& self.stakes[i].claimed ==> self.resolved && self.stakes[i].option
                    == self.winning_option
            }
    }
}

impl ContractView {
    pub open spec fn has_bet(self, id: u64) -> bool {
        1 <= id && id <= self.bets.len()
    }

    pub open spec fn bet(self, id: u64) -> BetView {
        if self.has_bet(id) {
            self.bets[id - 1]
        } else {
            default_bet()
        }
    }

    pub open spec fn with_bet(self, id: u64, b: BetView) -> ContractView {
        ContractView { bet_counter: self.bet_counter, bets: self.bets.update(id - 1, b) }
    }

    pub open spec fn wf(self) -> bool {
        &&& self.bets.len() == self.bet_counter
        &&& forall|i: int| 0 <= i < self.bets.len() ==> (#[trigger] self.bets[i]).wf()
    }
}

pub open spec fn new_bet(
    organizer: Address,
    event_name: Seq<char>,
    deadline: u64,
    options: Seq<u128>,
) -> BetView {
    BetView {
        organizer,
        event_name,
        deadline,
        options,
        total_pool: 0,
        resolved: false,
        winning_option: 0,
        stakes: Seq::empty(),
    }
}

/// `create`: the next id (saturating), with `caller` as organizer.
pub open spec fn create_step(
    v: ContractView,
    caller: Address,
    event_name: Seq<char>,
    deadline: u64,
    options: Seq<u128>,
) -> (ContractView, Result<u64, BetError>) {
    if options.len() == 0 {
        (v, Err(BetError::InvalidInput))
    } else {
        let b = new_bet(caller, event_name, deadline, options);
        if v.bet_counter < MAX_BET_ID {
            let id = (v.bet_counter + 1) as u64;
            (ContractView { bet_counter: id, bets: v.bets.push(b) }, Ok(id))
        } else {
            (v.with_bet(MAX_BET_ID, b), Ok(MAX_BET_ID))
        }
    }
}

/// `join`: records `caller`'s stake of `value` on `option`.
pub open spec fn join_step(
    v: ContractView,
    caller: Address,
    id: u64,
    option: u128,
    value: u128,
) -> (ContractView, Result<(), BetError>) {
    let b = v.bet(id);
    if b.resolved {
        (v, Err(BetError::AlreadyResolved))
    } else if !b.options.contains(option) {
        (v, Err(BetError::InvalidOption))
    } else if value == 0 {
        (v, Err(BetError::ZeroStake))
    } else if stake_index(b.stakes, caller) >= 0 {
        (v, Err(BetError::AlreadyJoined))
    } else if b.total_pool + value > u128::MAX {
        (v, Err(BetError::PoolOverflow))
    } else {
        let s = PlayerBet { player: caller, amount: value, option, claimed: false };
        (
            v.with_bet(
                id,
                BetView { stakes: b.stakes.push(s), total_pool: (b.total_pool + value) as u128, ..b },
            ),
            Ok(()),
        )
    }
}

/// `resolve`: the organizer fixes the winning option, once.
pub open spec fn resolve_step(v: ContractView, caller: Address, id: u64, winning: u128) -> (
    ContractView,
    Result<(), BetError>,
) {
    let b = v.bet(id);
    if b.organizer != caller {
        (v, Err(BetError::Unauthorized))
    } else if b.resolved {
        (v, Err(BetError::AlreadyResolved))
    } else if !b.options.contains(winning) {
        (v, Err(BetError::InvalidOption))
    } else {
        (v.with_bet(id, BetView { resolved: true, winning_option: winning, ..b }), Ok(()))
    }
}

/// The amount staked on the winning option, or `NoWinners` when it is zero.
pub open spec fn winning_pool_result(v: ContractView, id: u64) -> Result<u128, BetError> {
    let p = v.bet(id).winning_pool();
    if p == 0 {
        Err(BetError::NoWinners)
    } else {
        Ok(p as u128)
    }
}

/// `claim`: marks `caller`'s winning stake as claimed and yields its prize.
pub open spec fn claim_step(v: ContractView, caller: Address, id: u64) -> (
    ContractView,
    Result<u128, BetError>,
) {
    let b = v.bet(id);
    let k = stake_index(b.stakes, caller);
    if !b.resolved {
        (v, Err(BetError::NotResolved))
    } else if k < 0 {
        (v, Err(BetError::NoStake))
    } else if b.stakes[k].claimed {
        (v, Err(BetError::AlreadyClaimed))
    } else if b.stakes[k].option != b.winning_option {
        (v, Err(BetError::NotAWinner))
    } else {
        let s = b.stakes[k];
        (
            v.with_bet(
                id,
                BetView { stakes: b.stakes.update(k, PlayerBet { claimed: true, ..s }), ..b },
            ),
            Ok(prize(s.amount as nat, b.total_pool as nat, b.winning_pool()) as u128),
        )
    }
}

} // verus!
