use holdem::errors::GameError;
use holdem::game::GamePlayState;
use holdem::games_manager::GamesManager;
use holdem::player::{PlayerAction, PlayerState};

#[test]
fn lookup_of_an_unknown_table_fails() {
    let m = GamesManager::new_manager();
    assert!(matches!(m.get_game(7), Err(GameError::TableNotFound)));
    assert!(matches!(
        m.get_game_state(7, 1),
        Err(GameError::TableNotFound)
    ));
}

#[test]
fn created_table_is_listed_and_found() {
    let mut m = GamesManager::new_manager();
    let id = m.new_game(4, 5, 10, 200).unwrap();
    let g = m.get_game(id).unwrap();
    assert_eq!(g.max_players, 4);
    assert_eq!(g.small_blind, 5);
    assert_eq!(g.big_blind, 10);
    assert_eq!(g.initial_balance, 200);
    assert_eq!(g.game_state, GamePlayState::NotStarted);
    let listing = m.get_all_games_data();
    assert_eq!(listing.len(), 1);
    assert_eq!(listing[0].game_id, id);
    assert_eq!(listing[0].seats_count, 4);
    assert_eq!(listing[0].seats_occupied, 0);
    assert_eq!(listing[0].initial_balance, 200);
    assert_eq!(listing[0].game_state, GamePlayState::NotStarted);
}

#[test]
fn listing_shows_every_table_in_creation_order() {
    let mut m = GamesManager::new_manager();
    let a = m.new_game(3, 1, 2, 50).unwrap();
    let b = m.new_game(5, 10, 20, 500).unwrap();
    let listing = m.get_all_games_data();
    assert_eq!(listing.len(), 2);
    assert_eq!(listing[0].game_id, a);
    assert_eq!(listing[1].game_id, b);
    assert_eq!(listing[1].seats_count, 5);
}

#[test]
fn joins_and_actions_flow_through_the_registry() {
    let mut m = GamesManager::new_manager();
    let table = m.new_game(3, 10, 20, 100).unwrap();
    let ann = m.join_game(table, 0, "ann", 0).unwrap();
    let bob = m.join_game(table, 1, "bob", 0).unwrap();
    let cyd = m.join_game(table, 2, "cyd", 0).unwrap();
    assert_eq!(
        m.join_game(table, 1, "dan", 0),
        Err(GameError::SeatTaken)
    );
    assert_eq!(
        m.join_game(999, 1, "dan", 0).unwrap_err(),
        GameError::TableNotFound
    );
    assert_eq!(m.set_ready(table, ann, true), Ok(true));
    assert_eq!(m.set_ready(table, bob, true), Ok(true));
    assert_eq!(
        m.set_ready(table, 424242, true),
        Err(GameError::NotFound)
    );
    assert_eq!(m.set_ready(table, cyd, true), Ok(true));
    let st = m.get_game_state(table, ann).unwrap();
    assert_eq!(st.game_state, GamePlayState::Started);
    assert_eq!(st.asker_seat, Some(0));
    assert_eq!(st.active_seat, 0);
    // Ann acts through the registry, resolved by participant id.
    assert_eq!(m.perform_action(table, ann, PlayerAction::Call, 20), Ok(()));
    let st = m.get_game_state(table, bob).unwrap();
    assert_eq!(st.players[0].as_ref().unwrap().bet_amount, 20);
    assert_eq!(st.players[0].as_ref().unwrap().balance, 80);
    assert_eq!(st.active_seat, 1);
    // Acting out of turn through the registry is rejected too.
    assert_eq!(
        m.perform_action(table, cyd, PlayerAction::Check, 0),
        Err(GameError::NotYourTurn)
    );
    assert_eq!(
        m.perform_action(999, ann, PlayerAction::Check, 0),
        Err(GameError::TableNotFound)
    );
}

#[test]
fn snapshot_names_the_seats_by_nickname() {
    let mut m = GamesManager::new_manager();
    let table = m.new_game(3, 10, 20, 100).unwrap();
    let ann = m.join_game(table, 0, "ann", 0).unwrap();
    let _bob = m.join_game(table, 2, "bob", 0).unwrap();
    let st = m.get_game_state(table, ann).unwrap();
    assert_eq!(st.players[0].as_ref().unwrap().nickname, "ann");
    assert!(st.players[1].is_none());
    assert_eq!(st.players[2].as_ref().unwrap().nickname, "bob");
    assert_eq!(st.players[0].as_ref().unwrap().state, PlayerState::NotReady);
    assert_eq!(st.pot, 0);
}

#[test]
fn two_tables_do_not_disturb_each_other() {
    let mut m = GamesManager::new_manager();
    let t1 = m.new_game(3, 10, 20, 100).unwrap();
    let t2 = m.new_game(3, 1, 2, 30).unwrap();
    let ann = m.join_game(t1, 0, "ann", 0).unwrap();
    let _ = m.join_game(t2, 0, "zoe", 0).unwrap();
    let st1 = m.get_game_state(t1, ann).unwrap();
    let st2 = m.get_game_state(t2, ann).unwrap();
    assert_eq!(st1.small_blind, 10);
    assert_eq!(st2.small_blind, 1);
    assert_eq!(st1.players[0].as_ref().unwrap().nickname, "ann");
    assert_eq!(st2.players[0].as_ref().unwrap().nickname, "zoe");
    // Ann holds a seat at the first table only.
    assert_eq!(st1.asker_seat, Some(0));
    assert_eq!(st2.asker_seat, None);
}
