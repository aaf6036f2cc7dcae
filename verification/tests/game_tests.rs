use holdem::cards::{new_deck, Card, Color, Rank};
use holdem::errors::GameError;
use holdem::game::{Game, GamePlayState};
use holdem::player::{PlayerAction, PlayerState};

/// All chips visible at the table: every seat's balance plus the pot,
/// read through a snapshot the way a viewer would.
fn visible_chips(g: &Game) -> u64 {
    let st = g.collect_state_data(0);
    let balances: u64 = st
        .players
        .iter()
        .map(|p| p.as_ref().map(|d| d.balance).unwrap_or(0))
        .sum();
    balances + st.pot
}

fn three_seat_table() -> (Game, u64, u64, u64) {
    let mut g = Game::new_game(3, 10, 20, 100);
    let id0 = g.join_game(0, "ann", 0).unwrap();
    let id1 = g.join_game(1, "bob", 1).unwrap();
    let id2 = g.join_game(2, "cyd", 2).unwrap();
    (g, id0, id1, id2)
}

fn started_table() -> (Game, u64, u64, u64) {
    let (mut g, id0, id1, id2) = three_seat_table();
    let _ = g.set_ready(0, true);
    let _ = g.set_ready(1, true);
    let _ = g.set_ready(2, true);
    (g, id0, id1, id2)
}

#[test]
fn deck_has_52_distinct_cards() {
    let deck = new_deck();
    assert_eq!(deck.len(), 52);
    for i in 0..52 {
        for j in (i + 1)..52 {
            assert_ne!(deck[i], deck[j]);
        }
    }
}

#[test]
fn join_fills_a_seat_and_rejects_conflicts() {
    let mut g = Game::new_game(3, 10, 20, 100);
    assert_eq!(g.players_count(), 0);
    let r = g.join_game(0, "ann", 0);
    assert!(r.is_ok());
    assert_eq!(g.players_count(), 1);
    assert_eq!(g.join_game(0, "bob", 0), Err(GameError::SeatTaken));
    assert_eq!(g.join_game(9, "bob", 0), Err(GameError::NotFound));
}

#[test]
fn start_needs_three_players() {
    let mut g = Game::new_game(5, 10, 20, 100);
    let _ = g.join_game(0, "ann", 0);
    let _ = g.join_game(1, "bob", 0);
    let _ = g.set_ready(0, true);
    let _ = g.set_ready(1, true);
    assert_eq!(g.game_state, GamePlayState::NotStarted);
    assert_eq!(g.start_game(), Err(GameError::TooFewPlayers));
}

#[test]
fn start_needs_everyone_ready() {
    let (mut g, _, _, _) = three_seat_table();
    let _ = g.set_ready(0, true);
    let _ = g.set_ready(1, true);
    assert_eq!(g.game_state, GamePlayState::NotStarted);
    assert_eq!(g.start_game(), Err(GameError::NotAllReady));
}

#[test]
fn auto_start_fires_exactly_on_last_ready() {
    let (mut g, _, _, _) = three_seat_table();
    // The third join alone does not start the table: the newcomer
    // joins not ready.
    assert_eq!(g.game_state, GamePlayState::NotStarted);
    let _ = g.set_ready(0, true);
    assert_eq!(g.game_state, GamePlayState::NotStarted);
    let _ = g.set_ready(1, true);
    assert_eq!(g.game_state, GamePlayState::NotStarted);
    let _ = g.set_ready(2, true);
    assert_eq!(g.game_state, GamePlayState::Started);
}

#[test]
fn unready_toggle_holds_the_start_back() {
    let (mut g, _, _, _) = three_seat_table();
    let _ = g.set_ready(0, true);
    let _ = g.set_ready(1, true);
    let _ = g.set_ready(1, false);
    let _ = g.set_ready(2, true);
    assert_eq!(g.game_state, GamePlayState::NotStarted);
    let _ = g.set_ready(1, true);
    assert_eq!(g.game_state, GamePlayState::Started);
}

#[test]
fn joining_a_started_table_is_rejected() {
    let (mut g, _, _, _) = started_table();
    assert_eq!(g.join_game(0, "dan", 0), Err(GameError::SeatTaken));
    // A started three-seat table has no free seat, so use a larger one.
    let mut h = Game::new_game(4, 10, 20, 100);
    let _ = h.join_game(0, "ann", 0);
    let _ = h.join_game(1, "bob", 0);
    let _ = h.join_game(2, "cyd", 0);
    let _ = h.set_ready(0, true);
    let _ = h.set_ready(1, true);
    let _ = h.set_ready(2, true);
    assert_eq!(h.game_state, GamePlayState::Started);
    assert_eq!(h.join_game(3, "dan", 0), Err(GameError::GameNotJoinable));
    assert_eq!(h.set_ready(0, false), Err(GameError::GameNotJoinable));
}

#[test]
fn blinds_are_posted_in_turn_order() {
    let (g, _, _, _) = started_table();
    // First hand: the dealer button is the lowest occupied seat.
    assert_eq!(g.dealer_seat, 0);
    let st = g.collect_state_data(0);
    let bets: Vec<u64> = st
        .players
        .iter()
        .map(|p| p.as_ref().unwrap().bet_amount)
        .collect();
    assert_eq!(bets, vec![0, 10, 20]);
    // Betting begins at the seat after the big blind.
    assert_eq!(g.active_player, 0);
    assert_eq!(st.pot, 30);
}

#[test]
fn acting_out_of_turn_is_rejected() {
    let (mut g, _, _, _) = started_table();
    assert_eq!(g.active_player, 0);
    assert_eq!(
        g.player_action(1, PlayerAction::Call, 20),
        Err(GameError::NotYourTurn)
    );
    let st = g.collect_state_data(0);
    assert_eq!(st.players[1].as_ref().unwrap().bet_amount, 10);
}

#[test]
fn acting_before_the_start_is_rejected() {
    let (mut g, _, _, _) = three_seat_table();
    assert_eq!(
        g.player_action(0, PlayerAction::Check, 0),
        Err(GameError::NotYourTurn)
    );
}

#[test]
fn under_raise_is_rejected() {
    let (mut g, _, _, _) = started_table();
    assert_eq!(g.active_player, 0);
    assert_eq!(
        g.player_action(0, PlayerAction::Bet, 5),
        Err(GameError::BetTooSmall)
    );
}

#[test]
fn check_below_the_table_bet_is_rejected() {
    let (mut g, _, _, _) = started_table();
    assert_eq!(
        g.player_action(0, PlayerAction::Check, 0),
        Err(GameError::BetTooSmall)
    );
}

#[test]
fn bet_over_balance_is_rejected_at_the_table() {
    let (mut g, _, _, _) = started_table();
    assert_eq!(
        g.player_action(0, PlayerAction::Bet, 101),
        Err(GameError::InsufficientBalance)
    );
}

#[test]
fn pre_flop_round_plays_out_to_the_flop() {
    let (mut g, _, _, _) = started_table();
    // Seat 0 calls to 20.
    assert_eq!(g.player_action(0, PlayerAction::Call, 20), Ok(()));
    let st = g.collect_state_data(0);
    assert_eq!(st.players[0].as_ref().unwrap().balance, 80);
    assert_eq!(st.players[0].as_ref().unwrap().bet_amount, 20);
    // The small blind calls up to 20.
    assert_eq!(g.active_player, 1);
    assert_eq!(g.player_action(1, PlayerAction::Call, 20), Ok(()));
    let st = g.collect_state_data(0);
    assert_eq!(st.players[1].as_ref().unwrap().balance, 80);
    assert_eq!(st.players[1].as_ref().unwrap().bet_amount, 20);
    // The big blind already matches the table bet but still owes a
    // decision: one seat left active keeps the round open.
    assert!(!g.round_end());
    assert_eq!(g.active_player, 2);
    assert_eq!(g.player_action(2, PlayerAction::Check, 0), Ok(()));
    // The round is over: three community cards are revealed and the
    // round's wagers are collected.
    let st = g.collect_state_data(0);
    let shown = st.community_cards.iter().filter(|c| c.is_some()).count();
    assert_eq!(shown, 3);
    for seat in 0..3 {
        let d = st.players[seat].as_ref().unwrap();
        assert_eq!(d.bet_amount, 0);
        assert_eq!(d.state, PlayerState::Active);
    }
    assert_eq!(st.pot, 60);
}

#[test]
fn chips_are_conserved_through_a_whole_hand() {
    let (mut g, _, _, _) = started_table();
    assert_eq!(visible_chips(&g), 300);
    let _ = g.player_action(0, PlayerAction::Call, 20);
    assert_eq!(visible_chips(&g), 300);
    let _ = g.player_action(1, PlayerAction::Call, 20);
    let _ = g.player_action(2, PlayerAction::Check, 0);
    assert_eq!(visible_chips(&g), 300);
    // Check the hand down through the flop, the turn and the river.
    for _ in 0..3 {
        for _ in 0..3 {
            let seat = g.active_player;
            assert_eq!(g.player_action(seat, PlayerAction::Check, 0), Ok(()));
            assert_eq!(visible_chips(&g), 300);
        }
    }
    // The showdown paid the whole pot to one seat and the next hand is
    // running with fresh blinds.
    assert_eq!(g.game_state, GamePlayState::Started);
    let st = g.collect_state_data(0);
    assert_eq!(st.pot, 30);
    assert_eq!(visible_chips(&g), 300);
    let balances: Vec<u64> = st
        .players
        .iter()
        .map(|p| p.as_ref().unwrap().balance)
        .collect();
    // One seat won the 60-chip pot of the first hand; every chip is
    // accounted for.
    assert_eq!(balances.iter().sum::<u64>() + st.pot, 300);
    assert!(balances.iter().any(|b| *b >= 100));
}

#[test]
fn folding_keeps_wagered_chips_in_the_pot() {
    let (mut g, _, _, _) = started_table();
    assert_eq!(g.player_action(0, PlayerAction::Fold, 0), Ok(()));
    let st = g.collect_state_data(0);
    assert_eq!(st.players[0].as_ref().unwrap().state, PlayerState::Folded);
    assert_eq!(st.pot, 30);
    assert_eq!(visible_chips(&g), 300);
    // The turn passes over the folded seat from then on.
    assert_eq!(g.active_player, 1);
}

#[test]
fn short_stack_is_forced_all_in_by_the_blind() {
    let mut g = Game::new_game(3, 10, 20, 5);
    let _ = g.join_game(0, "ann", 0);
    let _ = g.join_game(1, "bob", 0);
    let _ = g.join_game(2, "cyd", 0);
    let _ = g.set_ready(0, true);
    let _ = g.set_ready(1, true);
    let _ = g.set_ready(2, true);
    assert_eq!(g.game_state, GamePlayState::Started);
    let st = g.collect_state_data(0);
    // The small blind is 10 but the seat holds only 5: it is forced all
    // in for its whole balance, never rejected.
    let sb = st.players[1].as_ref().unwrap();
    assert_eq!(sb.state, PlayerState::AllIn);
    assert_eq!(sb.bet_amount, 5);
    assert_eq!(sb.balance, 0);
    let bb = st.players[2].as_ref().unwrap();
    assert_eq!(bb.state, PlayerState::AllIn);
    assert_eq!(bb.bet_amount, 5);
    assert_eq!(bb.balance, 0);
}

#[test]
fn zero_stakes_table_ends_at_the_first_hand_boundary() {
    let mut g = Game::new_game(3, 10, 20, 0);
    let _ = g.join_game(0, "ann", 0);
    let _ = g.join_game(1, "bob", 0);
    let _ = g.join_game(2, "cyd", 0);
    let _ = g.set_ready(0, true);
    let _ = g.set_ready(1, true);
    let _ = g.set_ready(2, true);
    // No seat holds chips, so no hand can be dealt: the table ends.
    assert_eq!(g.game_state, GamePlayState::Ended);
    // An ended table accepts no further actions.
    assert_eq!(
        g.player_action(0, PlayerAction::Check, 0),
        Err(GameError::NotYourTurn)
    );
    assert_eq!(g.join_game(0, "dan", 0), Err(GameError::SeatTaken));
}

#[test]
fn round_end_is_exactly_no_active_seat() {
    let (mut g, _, _, _) = started_table();
    // All three seats are active right after the blinds.
    assert!(!g.round_end());
    let _ = g.player_action(0, PlayerAction::Call, 20);
    let _ = g.player_action(1, PlayerAction::Fold, 0);
    // A single remaining active seat keeps the round open.
    assert!(!g.round_end());
}

#[test]
fn next_active_seat_skips_folded_seats() {
    let (mut g, _, _, _) = started_table();
    let _ = g.player_action(0, PlayerAction::Fold, 0);
    assert_eq!(g.active_player, 1);
    // The next eligible seat after seat 1 is seat 2; after seat 2 the
    // scan wraps past the folded seat 0 back to seat 1.
    assert_eq!(g.get_next_active_player(), Some(2));
}

#[test]
fn snapshot_withholds_hole_cards_from_strangers() {
    let (g, id0, _, _) = started_table();
    let own = g.collect_state_data(id0);
    assert_eq!(own.asker_seat, Some(0));
    assert!(own.personal_cards.iter().all(|c| c.is_some()));
    let stranger = g.collect_state_data(12345);
    assert_eq!(stranger.asker_seat, None);
    assert!(stranger.personal_cards.iter().all(|c| c.is_none()));
    // Before the flop no community card is revealed to anyone.
    assert!(own.community_cards.iter().all(|c| c.is_none()));
}

#[test]
fn deck_order_starts_and_ends_where_expected() {
    let deck = new_deck();
    assert_eq!(deck[0], Card::new(Color::Spades, Rank::Two));
    assert_eq!(deck[12], Card::new(Color::Spades, Rank::Ace));
    assert_eq!(deck[13], Card::new(Color::Hearts, Rank::Two));
    assert_eq!(deck[51], Card::new(Color::Clubs, Rank::Ace));
}

#[test]
fn largest_table_the_deck_can_seat() {
    // 23 seats take 46 hole cards and leave five community cards.
    let mut g = Game::new_game(23, 1, 2, 10);
    for seat in 0..23u8 {
        assert!(g.join_game(seat, "p", 0).is_ok());
    }
    assert_eq!(g.players_count(), 23);
    for seat in 0..23usize {
        let _ = g.set_ready(seat, true);
    }
    assert_eq!(g.game_state, GamePlayState::Started);
    let st = g.collect_state_data(0);
    assert_eq!(st.players.len(), 23);
    // Chips stay conserved at the largest size.
    let balances: u64 = st
        .players
        .iter()
        .map(|p| p.as_ref().unwrap().balance)
        .sum();
    assert_eq!(balances + st.pot, 230);
}

#[test]
fn table_ends_with_cleared_pools_when_one_player_takes_all() {
    let mut g = Game::new_game(3, 10, 20, 20);
    let _ = g.join_game(0, "ann", 0);
    let _ = g.join_game(1, "bob", 0);
    let _ = g.join_game(2, "cyd", 0);
    let _ = g.set_ready(0, true);
    let _ = g.set_ready(1, true);
    let _ = g.set_ready(2, true);
    assert_eq!(g.game_state, GamePlayState::Started);
    // The big blind already forced seat 2 all in; the other two call
    // their whole stacks in.
    assert_eq!(g.player_action(0, PlayerAction::Call, 20), Ok(()));
    assert_eq!(g.player_action(1, PlayerAction::Call, 20), Ok(()));
    // The later streets need only the asked seat's checks; the showdown
    // then leaves at most one seat with chips, so the table ends.
    let mut guard = 0;
    while g.game_state == GamePlayState::Started && guard < 10 {
        let seat = g.active_player;
        let _ = g.player_action(seat, PlayerAction::Check, 0);
        guard += 1;
    }
    assert_eq!(g.game_state, GamePlayState::Ended);
    // An ended table's wager pools are zeroed: the pot reads empty and
    // every chip stands in a balance.
    let st = g.collect_state_data(0);
    assert_eq!(st.pot, 0);
    let balances: Vec<u64> = st
        .players
        .iter()
        .map(|p| p.as_ref().unwrap().balance)
        .collect();
    assert_eq!(balances.iter().sum::<u64>(), 60);
    assert!(balances.contains(&60));
}
