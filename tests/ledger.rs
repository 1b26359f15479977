use betting_contract::contract::BettingContract;
use betting_contract::ledger::{Address, BetError};

fn who(n: u128) -> Address {
    Address { high: 0, low: n }
}

fn organizer() -> Address {
    Address { high: 7, low: 99 }
}

/// A ledger with one bet (id 1) on options 1 and 2.
fn one_bet() -> BettingContract {
    let mut c = BettingContract::new();
    let id = c.create_bet(organizer(), "X".to_string(), 1000, vec![1, 2]);
    assert_eq!(id, Ok(1));
    c
}

#[test]
fn full_round_pays_the_whole_pool_to_the_only_winner() {
    let mut c = one_bet();
    assert_eq!(c.bet_counter(), 1);
    let a = who(1);
    let b = who(2);
    assert_eq!(c.join_bet(a, 1, 1, 100), Ok(()));
    assert_eq!(c.join_bet(b, 1, 2, 300), Ok(()));
    assert_eq!(c.resolve_bet(organizer(), 1, 1), Ok(()));
    assert_eq!(c.claim_prize(a, 1), Ok(400));
    assert_eq!(c.claim_prize(a, 1), Err(BetError::AlreadyClaimed));
    assert_eq!(c.claim_prize(b, 1), Err(BetError::NotAWinner));
    assert!(c.get_player_bet_claimed(1, a));
    assert!(!c.get_player_bet_claimed(1, b));
}

#[test]
fn create_with_no_options_is_refused() {
    let mut c = BettingContract::new();
    assert_eq!(
        c.create_bet(organizer(), "X".to_string(), 1000, vec![]),
        Err(BetError::InvalidInput)
    );
    assert_eq!(c.bet_counter(), 0);
    assert!(c.get_bet_options(1).is_empty());
}

#[test]
fn join_on_unknown_option_leaves_pool() {
    let mut c = one_bet();
    assert_eq!(c.join_bet(who(1), 1, 1, 50), Ok(()));
    assert_eq!(c.join_bet(who(2), 1, 7, 100), Err(BetError::InvalidOption));
    assert_eq!(c.get_bet_total_pool(1), 50);
    assert_eq!(c.get_bet_players(1), vec![who(1)]);
}

#[test]
fn resolve_by_stranger_is_refused() {
    let mut c = one_bet();
    assert_eq!(c.resolve_bet(who(5), 1, 1), Err(BetError::Unauthorized));
    assert!(!c.get_bet_resolved(1));
}

#[test]
fn no_winning_stakes_means_no_payout() {
    let mut c = one_bet();
    assert_eq!(c.join_bet(who(1), 1, 1, 100), Ok(()));
    assert_eq!(c.join_bet(who(2), 1, 1, 300), Ok(()));
    assert_eq!(c.resolve_bet(organizer(), 1, 2), Ok(()));
    assert_eq!(c.claim_prize(who(1), 1), Err(BetError::NotAWinner));
    assert_eq!(c.claim_prize(who(2), 1), Err(BetError::NotAWinner));
    assert_eq!(c.calculate_winning_pool(1), Err(BetError::NoWinners));
}

#[test]
fn pool_is_the_sum_of_stakes() {
    let mut c = one_bet();
    assert_eq!(c.get_bet_total_pool(1), 0);
    assert_eq!(c.join_bet(who(1), 1, 1, 100), Ok(()));
    assert_eq!(c.join_bet(who(2), 1, 2, 250), Ok(()));
    assert_eq!(c.join_bet(who(3), 1, 1, 7), Ok(()));
    assert_eq!(c.get_bet_total_pool(1), 357);
    assert_eq!(c.get_bet_players(1), vec![who(1), who(2), who(3)]);
}

#[test]
fn second_resolve_is_refused() {
    let mut c = one_bet();
    assert_eq!(c.resolve_bet(organizer(), 1, 2), Ok(()));
    assert_eq!(c.resolve_bet(organizer(), 1, 1), Err(BetError::AlreadyResolved));
    assert_eq!(c.resolve_bet(organizer(), 1, 2), Err(BetError::AlreadyResolved));
    assert_eq!(c.resolve_bet(who(5), 1, 1), Err(BetError::Unauthorized));
    assert_eq!(c.get_bet_winning_option(1), 2);
}

#[test]
fn claim_before_resolve_is_refused() {
    let mut c = one_bet();
    assert_eq!(c.join_bet(who(1), 1, 1, 100), Ok(()));
    assert_eq!(c.claim_prize(who(1), 1), Err(BetError::NotResolved));
    assert_eq!(c.claim_prize(who(9), 1), Err(BetError::NotResolved));
    assert!(!c.get_player_bet_claimed(1, who(1)));
}

#[test]
fn prizes_leave_integer_dust() {
    let mut c = one_bet();
    assert_eq!(c.join_bet(who(1), 1, 1, 1), Ok(()));
    assert_eq!(c.join_bet(who(2), 1, 1, 1), Ok(()));
    assert_eq!(c.join_bet(who(3), 1, 1, 1), Ok(()));
    assert_eq!(c.join_bet(who(4), 1, 2, 1), Ok(()));
    assert_eq!(c.resolve_bet(organizer(), 1, 1), Ok(()));
    assert_eq!(c.calculate_winning_pool(1), Ok(3));
    let mut paid = 0;
    for n in 1..4 {
        let p = c.claim_prize(who(n), 1).unwrap();
        assert_eq!(p, 1);
        paid += p;
    }
    assert_eq!(paid, 3);
    assert!(paid <= c.get_bet_total_pool(1));
}

#[test]
fn prizes_are_proportional_to_stakes() {
    let mut c = one_bet();
    assert_eq!(c.join_bet(who(1), 1, 1, 100), Ok(()));
    assert_eq!(c.join_bet(who(2), 1, 1, 200), Ok(()));
    assert_eq!(c.join_bet(who(3), 1, 2, 300), Ok(()));
    assert_eq!(c.resolve_bet(organizer(), 1, 1), Ok(()));
    assert_eq!(c.claim_prize(who(1), 1), Ok(200));
    assert_eq!(c.claim_prize(who(2), 1), Ok(400));
}

#[test]
fn prize_uses_wide_product() {
    // amount * total_pool does not fit in 128 bits; the quotient does.
    let big: u128 = 1 << 126;
    let mut c = one_bet();
    assert_eq!(c.join_bet(who(1), 1, 1, big), Ok(()));
    assert_eq!(c.join_bet(who(2), 1, 1, big), Ok(()));
    assert_eq!(c.join_bet(who(3), 1, 2, big), Ok(()));
    assert_eq!(c.resolve_bet(organizer(), 1, 1), Ok(()));
    assert_eq!(c.claim_prize(who(1), 1), Ok(big + big / 2));
}

#[test]
fn join_errors() {
    let mut c = one_bet();
    assert_eq!(c.join_bet(who(1), 1, 1, 0), Err(BetError::ZeroStake));
    assert_eq!(c.join_bet(who(1), 1, 1, 10), Ok(()));
    assert_eq!(c.join_bet(who(1), 1, 2, 20), Err(BetError::AlreadyJoined));
    assert_eq!(c.join_bet(who(2), 1, 2, u128::MAX), Err(BetError::PoolOverflow));
    assert_eq!(c.join_bet(who(2), 9, 1, 10), Err(BetError::InvalidOption));
    assert_eq!(c.get_bet_total_pool(1), 10);
    assert_eq!(c.resolve_bet(organizer(), 1, 1), Ok(()));
    assert_eq!(c.join_bet(who(3), 1, 1, 10), Err(BetError::AlreadyResolved));
}

#[test]
fn resolve_and_claim_errors() {
    let mut c = one_bet();
    assert_eq!(c.resolve_bet(organizer(), 1, 3), Err(BetError::InvalidOption));
    assert_eq!(c.resolve_bet(organizer(), 2, 1), Err(BetError::Unauthorized));
    assert_eq!(c.resolve_bet(Address { high: 0, low: 0 }, 2, 1), Err(BetError::InvalidOption));
    assert_eq!(c.join_bet(who(1), 1, 1, 10), Ok(()));
    assert_eq!(c.resolve_bet(organizer(), 1, 1), Ok(()));
    assert_eq!(c.claim_prize(who(2), 1), Err(BetError::NoStake));
    assert_eq!(c.claim_prize(who(1), 2), Err(BetError::NotResolved));
    assert_eq!(c.calculate_winning_pool(2), Err(BetError::NoWinners));
}

#[test]
fn accessors_report_the_record() {
    let mut c = one_bet();
    assert_eq!(c.create_bet(who(4), "Y".to_string(), 55, vec![9, 8, 7]), Ok(2));
    assert_eq!(c.bet_counter(), 2);
    assert_eq!(c.get_bet_organizer(1), organizer());
    assert_eq!(c.get_bet_organizer(2), who(4));
    assert_eq!(c.get_bet_deadline(1), 1000);
    assert_eq!(c.get_bet_deadline(2), 55);
    assert_eq!(c.get_bet_options(2), vec![9, 8, 7]);
    assert_eq!(c.join_bet(who(1), 2, 8, 40), Ok(()));
    assert_eq!(c.get_player_bet_amount(2, who(1)), 40);
    assert_eq!(c.get_player_bet_option(2, who(1)), 8);
    assert!(!c.get_player_bet_claimed(2, who(1)));
    assert_eq!(c.get_bet_winning_option(2), 0);
}

#[test]
fn accessors_default_for_missing_keys() {
    let c = one_bet();
    assert_eq!(c.get_bet_organizer(5), Address::zero());
    assert_eq!(c.get_bet_deadline(5), 0);
    assert!(c.get_bet_options(0).is_empty());
    assert_eq!(c.get_bet_total_pool(5), 0);
    assert!(!c.get_bet_resolved(5));
    assert_eq!(c.get_bet_winning_option(5), 0);
    assert!(c.get_bet_players(5).is_empty());
    assert_eq!(c.get_player_bet_amount(1, who(3)), 0);
    assert_eq!(c.get_player_bet_option(1, who(3)), 0);
    assert!(!c.get_player_bet_claimed(1, who(3)));
}
