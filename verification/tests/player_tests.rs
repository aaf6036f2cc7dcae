use holdem::cards::{Card, Color, Rank};
use holdem::errors::GameError;
use holdem::player::{Player, PlayerAction, PlayerState};

#[test]
fn new_player_starts_not_ready_with_initial_balance() {
    let p = Player::new_player(3, 250, 1);
    assert_eq!(p.seat_index, 3);
    assert_eq!(p.balance, 250);
    assert_eq!(p.current_bet, 0);
    assert_eq!(p.total_bet, 0);
    assert_eq!(p.state, PlayerState::NotReady);
    assert_eq!(p.cards.len(), 2);
}

#[test]
fn set_ready_toggles_states() {
    let mut p = Player::new_player(0, 100, 0);
    p.set_ready(true);
    assert_eq!(p.state, PlayerState::Ready);
    p.set_ready(false);
    assert_eq!(p.state, PlayerState::NotReady);
}

#[test]
fn bet_moves_chips_and_activates() {
    let mut p = Player::new_player(0, 100, 0);
    let r = p.perform_action(PlayerAction::Bet, 30);
    assert_eq!(r, Ok(30));
    assert_eq!(p.balance, 70);
    assert_eq!(p.current_bet, 30);
    assert_eq!(p.state, PlayerState::Active);
}

#[test]
fn bet_of_whole_balance_is_all_in() {
    let mut p = Player::new_player(0, 100, 0);
    let r = p.perform_action(PlayerAction::Bet, 100);
    assert_eq!(r, Ok(100));
    assert_eq!(p.balance, 0);
    assert_eq!(p.state, PlayerState::AllIn);
}

#[test]
fn bet_over_balance_is_rejected_unchanged() {
    let mut p = Player::new_player(0, 50, 0);
    let r = p.perform_action(PlayerAction::Bet, 51);
    assert_eq!(r, Err(GameError::InsufficientBalance));
    assert_eq!(p.balance, 50);
    assert_eq!(p.current_bet, 0);
    assert_eq!(p.state, PlayerState::NotReady);
}

#[test]
fn call_tops_up_to_target() {
    let mut p = Player::new_player(0, 100, 0);
    let r1 = p.perform_action(PlayerAction::Bet, 10);
    assert_eq!(r1, Ok(10));
    let r2 = p.perform_action(PlayerAction::Call, 25);
    assert_eq!(r2, Ok(25));
    assert_eq!(p.balance, 75);
    assert_eq!(p.current_bet, 25);
    assert_eq!(p.state, PlayerState::Call);
}

#[test]
fn call_that_exhausts_balance_is_all_in() {
    let mut p = Player::new_player(0, 25, 0);
    let r = p.perform_action(PlayerAction::Call, 25);
    assert_eq!(r, Ok(25));
    assert_eq!(p.balance, 0);
    assert_eq!(p.state, PlayerState::AllIn);
}

#[test]
fn call_over_balance_is_rejected() {
    let mut p = Player::new_player(0, 10, 0);
    let r = p.perform_action(PlayerAction::Call, 11);
    assert_eq!(r, Err(GameError::InsufficientBalance));
    assert_eq!(p.balance, 10);
}

#[test]
fn check_below_target_is_rejected() {
    let mut p = Player::new_player(0, 100, 0);
    let r = p.perform_action(PlayerAction::Check, 5);
    assert_eq!(r, Err(GameError::BetTooSmall));
    assert_eq!(p.state, PlayerState::NotReady);
}

#[test]
fn check_at_target_succeeds() {
    let mut p = Player::new_player(0, 100, 0);
    let _ = p.perform_action(PlayerAction::Bet, 20);
    let r = p.perform_action(PlayerAction::Check, 20);
    assert_eq!(r, Ok(20));
    assert_eq!(p.state, PlayerState::Check);
}

#[test]
fn all_in_commits_everything() {
    let mut p = Player::new_player(0, 42, 0);
    let r = p.perform_action(PlayerAction::AllIn, 0);
    assert_eq!(r, Ok(42));
    assert_eq!(p.balance, 0);
    assert_eq!(p.current_bet, 42);
    assert_eq!(p.state, PlayerState::AllIn);
}

#[test]
fn fold_forfeits_but_keeps_wagered_chips_in_pools() {
    let mut p = Player::new_player(0, 100, 0);
    let _ = p.perform_action(PlayerAction::Bet, 40);
    let r = p.perform_action(PlayerAction::Fold, 0);
    assert_eq!(r, Ok(60));
    assert_eq!(p.state, PlayerState::Folded);
    assert_eq!(p.balance, 60);
    assert_eq!(p.current_bet, 40);
}

#[test]
fn folded_player_cannot_act_again() {
    let mut p = Player::new_player(0, 100, 0);
    let _ = p.perform_action(PlayerAction::Fold, 0);
    let r = p.perform_action(PlayerAction::Bet, 10);
    assert_eq!(r, Err(GameError::PlayerInactive));
    assert_eq!(p.state, PlayerState::Folded);
}

#[test]
fn chips_are_conserved_by_every_action() {
    let mut p = Player::new_player(0, 100, 0);
    let total = |p: &Player| p.balance + p.current_bet + p.total_bet;
    assert_eq!(total(&p), 100);
    let _ = p.perform_action(PlayerAction::Bet, 30);
    assert_eq!(total(&p), 100);
    let _ = p.perform_action(PlayerAction::Call, 50);
    assert_eq!(total(&p), 100);
    let _ = p.collect_bet();
    assert_eq!(total(&p), 100);
    assert_eq!(p.current_bet, 0);
    assert_eq!(p.total_bet, 50);
    let _ = p.perform_action(PlayerAction::Fold, 0);
    assert_eq!(total(&p), 100);
    p.collect_win(77);
    assert_eq!(total(&p), 177);
}

#[test]
fn set_active_respects_force_and_absorbing_states() {
    let mut p = Player::new_player(0, 100, 0);
    let _ = p.perform_action(PlayerAction::Fold, 0);
    let p = p.set_active(false);
    assert_eq!(p.state, PlayerState::Folded);
    let p = p.set_active(true);
    assert_eq!(p.state, PlayerState::Active);

    let mut q = Player::new_player(1, 10, 0);
    let _ = q.perform_action(PlayerAction::AllIn, 0);
    let q = q.set_active(false);
    assert_eq!(q.state, PlayerState::AllIn);
    let q = q.set_active(true);
    assert_eq!(q.state, PlayerState::Active);
}

#[test]
fn reset_for_next_round_zeroes_wagers() {
    let mut p = Player::new_player(0, 100, 0);
    let _ = p.perform_action(PlayerAction::Bet, 25);
    let _ = p.collect_bet();
    p.reset_for_next_round();
    assert_eq!(p.current_bet, 0);
    assert_eq!(p.total_bet, 0);
    assert_eq!(p.balance, 75);
}

#[test]
fn take_card_replaces_one_hole_card() {
    let mut p = Player::new_player(0, 100, 0);
    let c = Card::new(Color::Hearts, Rank::Ace);
    p.take_card(1, &c);
    assert_eq!(p.cards[1], c);
    assert_eq!(p.cards.len(), 2);
}
