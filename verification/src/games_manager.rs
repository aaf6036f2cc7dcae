//! The table registry: it owns every table, keyed by an opaque
//! identifier, creates new tables, resolves callers to their seats, and
//! forwards joins, readiness changes and actions to the right table.
//! Every table it holds satisfies the table invariant at all times.

use std::collections::HashMap;

use vstd::prelude::*;

use crate::cards::Card;
use crate::errors::GameError;
use crate::game::{action_post, join_post, set_ready_post, snapshot_post, Game, GamePlayState};
use crate::player::{PlayerAction, PlayerData};
use crate::random::fresh_id;
use crate::seats::occupied_count;

verus! {

broadcast use vstd::std_specs::hash::group_hash_axioms;

/// A lobby summary of one table.
#[derive(Clone, Debug)]
pub struct GameData {
    pub game_id: u64,
    pub seats_count: usize,
    pub seats_occupied: u8,
    pub small_blind: u64,
    pub big_blind: u64,
    pub initial_balance: u64,
    pub game_state: GamePlayState,
}

/// A state snapshot of one table for one viewer: community cards beyond
/// the revealed count and other players' hole cards are withheld.
#[derive(Debug)]
pub struct GameState {
    pub asker_seat: Option<usize>,
    pub active_seat: usize,
    pub community_cards: Vec<Option<Card>>,
    pub personal_cards: Vec<Option<Card>>,
    pub bets_placed: Vec<Option<u64>>,
    pub pot: u64,
    pub players: Vec<Option<PlayerData>>,
    pub small_blind: u64,
    pub big_blind: u64,
    pub game_state: GamePlayState,
    pub dealer_seat: usize,
}

/// What a lobby summary says of a table.
pub open spec fn summary_of(g: Game, id: u64, d: GameData) -> bool {
    &&& d.game_id == id
    &&& d.seats_count == g.max_players
    &&& d.seats_occupied == occupied_count(g.players_by_seats@)
    &&& d.small_blind == g.small_blind
    &&& d.big_blind == g.big_blind
    &&& d.initial_balance == g.initial_balance
    &&& d.game_state == g.game_state
}

/// A table as the registry first stores it: empty, not started, with
/// the parameters it was created with.
pub open spec fn fresh_table(
    g: Game,
    max_players: usize,
    small_blind: u64,
    big_blind: u64,
    initial_balance: u64,
) -> bool {
    &&& g.wf()
    &&& g.max_players == max_players
    &&& g.small_blind == small_blind
    &&& g.big_blind == big_blind
    &&& g.initial_balance == initial_balance
    &&& g.game_state == GamePlayState::NotStarted
    &&& g.players@ == Map::<u64, usize>::empty()
    &&& occupied_count(g.players_by_seats@) == 0
}

/// The table registry.
pub struct GamesManager {
    /// Every table, by its identifier.
    pub games: HashMap<u64, Game>,
    /// The identifiers in creation order, for a stable lobby listing.
    pub ids: Vec<u64>,
}

impl GamesManager {
    /// The registry invariant: the listing and the map hold exactly the
    /// same identifiers, without duplicates, and every stored table
    /// satisfies the table invariant.
    pub open spec fn wf(self) -> bool {
        &&& forall|id: u64| #[trigger] self.games@.contains_key(id) ==> self.games@[id].wf()
        &&& self.ids@.no_duplicates()
        &&& forall|k: int|
            0 <= k < self.ids@.len() ==> self.games@.contains_key(#[trigger] self.ids@[k])
        &&& forall|id: u64| #[trigger] self.games@.contains_key(id) ==> self.ids@.contains(id)
    }

    /// An empty registry.
    pub fn new_manager() -> (m: GamesManager)
        ensures
            m.wf(),
            m.games@ == Map::<u64, Game>::empty(),
            m.ids@ == Seq::<u64>::empty(),
    {
        let games: HashMap<u64, Game> = HashMap::with_capacity(100);
        GamesManager { games, ids: Vec::new() }
    }

    /// Stores a fresh table under the given identifier; an identifier
    /// already in use is refused and nothing changes, so no stored table
    /// is ever overwritten.
    pub fn create_game_with_id(
        &mut self,
        game_id: u64,
        max_players: usize,
        small_blind: u64,
        big_blind: u64,
        initial_balance: u64,
    ) -> (r: Result<(), GameError>)
        requires
            old(self).wf(),
            max_players <= 23,
            max_players * initial_balance <= u64::MAX,
        ensures
            final (self).wf(),
            old(self).games@.contains_key(game_id) ==> r == Err::<(), GameError>(
                GameError::IdentifierTaken,
            ) && final (self).games@ == old(self).games@ && final (self).ids@ == old(self).ids@,
            !old(self).games@.contains_key(game_id) ==> {
                &&& r == Ok::<(), GameError>(())
                &&& final (self).games@ == old(self).games@.insert(
                    game_id,
                    final (self).games@[game_id],
                )
                &&& fresh_table(
                    final (self).games@[game_id],
                    max_players,
                    small_blind,
                    big_blind,
                    initial_balance,
                )
                &&& final (self).ids@ == old(self).ids@.push(game_id)
            },
    {
        if self.games.contains_key(&game_id) {
            return Err(GameError::IdentifierTaken);
        }
        let game = Game::new_game(max_players, small_blind, big_blind, initial_balance);
        proof {
            assert(forall|k: int| 0 <= k < old(self).ids@.len() ==> old(self).ids@[k] != game_id);
        }
        self.ids.push(game_id);
        self.games.insert(game_id, game);
        proof {
            assert(self.ids@.no_duplicates());
            assert forall|id2: u64| #[trigger] self.games@.contains_key(id2) implies self.ids@.contains(
                id2,
            ) by {
                if id2 == game_id {
                    assert(self.ids@[self.ids@.len() - 1] == id2);
                } else {
                    assert(old(self).games@.contains_key(id2));
                    assert(old(self).ids@.contains(id2));
                    let w = choose|w: int|
                        0 <= w < old(self).ids@.len() && old(self).ids@[w] == id2;
                    assert(self.ids@[w] == id2);
                }
            };
        }
        Ok(())
    }

    /// Creates a table under a freshly drawn identifier, which is
    /// returned. The draw decides the identifier, so creation either
    /// completes under it or reports it taken and changes nothing; a
    /// caller may simply try again. The capacity is bounded by the deck
    /// and the stakes must fit a chip count, as `Game::new_game` demands.
    pub fn new_game(
        &mut self,
        max_players: usize,
        small_blind: u64,
        big_blind: u64,
        initial_balance: u64,
    ) -> (r: Result<u64, GameError>)
        requires
            old(self).wf(),
            max_players <= 23,
            max_players * initial_balance <= u64::MAX,
        ensures
            final (self).wf(),
            match r {
                Ok(id) => {
                    &&& !old(self).games@.contains_key(id)
                    &&& final (self).games@ == old(self).games@.insert(
                        id,
                        final (self).games@[id],
                    )
                    &&& fresh_table(
                        final (self).games@[id],
                        max_players,
                        small_blind,
                        big_blind,
                        initial_balance,
                    )
                    &&& final (self).ids@ == old(self).ids@.push(id)
                },
                Err(e) => e == GameError::IdentifierTaken && final (self).games@ == old(
                    self,
                ).games@ && final (self).ids@ == old(self).ids@,
            },
    {
        let game_id = fresh_id();
        match self.create_game_with_id(game_id, max_players, small_blind, big_blind, initial_balance) {
            Ok(()) => Ok(game_id),
            Err(e) => Err(e),
        }
    }

    /// The table with the given identifier, or `TableNotFound`.
    pub fn get_game(&self, game_id: u64) -> (r: Result<&Game, GameError>)
        ensures
            self.games@.contains_key(game_id) ==> (r matches Ok(g) && *g == self.games@[game_id]),
            !self.games@.contains_key(game_id) ==> r == Err::<&Game, GameError>(
                GameError::TableNotFound,
            ),
    {
        match self.games.get(&game_id) {
            None => Err(GameError::TableNotFound),
            Some(game) => Ok(game),
        }
    }

    /// Forwards a join to the table with the given identifier; the join
    /// behaves exactly as `Game::join_game` promises, and no other table
    /// is touched.
    pub fn join_game(
        &mut self,
        game_id: u64,
        seat_index: u8,
        nickname: &str,
        appearance_type: u8,
    ) -> (r: Result<u64, GameError>)
        requires
            old(self).wf(),
        ensures
            final (self).wf(),
            final (self).ids@ == old(self).ids@,
            !old(self).games@.contains_key(game_id) ==> r == Err::<u64, GameError>(
                GameError::TableNotFound,
            ) && final (self).games@ == old(self).games@,
            old(self).games@.contains_key(game_id) ==> {
                &&& final (self).games@ == old(self).games@.insert(
                    game_id,
                    final (self).games@[game_id],
                )
                &&& join_post(
                    old(self).games@[game_id],
                    final (self).games@[game_id],
                    seat_index,
                    nickname@,
                    appearance_type,
                    r,
                )
            },
    {
        let taken = self.games.remove(&game_id);
        match taken {
            None => {
                proof {
                    assert(self.games@ =~= old(self).games@);
                }
                Err(GameError::TableNotFound)
            },
            Some(mut game) => {
                let res = game.join_game(seat_index, nickname, appearance_type);
                self.games.insert(game_id, game);
                proof {
                    assert(self.games@ =~= old(self).games@.insert(game_id, self.games@[game_id]));
                }
                res
            },
        }
    }

    /// Resolves the caller to a seat at the given table and forwards the
    /// readiness change; unknown tables and unknown participants are
    /// explicit errors, never faults.
    pub fn set_ready(&mut self, game_id: u64, player_id: u64, ready: bool) -> (r: Result<
        bool,
        GameError,
    >)
        requires
            old(self).wf(),
        ensures
            final (self).wf(),
            final (self).ids@ == old(self).ids@,
            !old(self).games@.contains_key(game_id) ==> r == Err::<bool, GameError>(
                GameError::TableNotFound,
            ) && final (self).games@ == old(self).games@,
            old(self).games@.contains_key(game_id) && !old(self).games@[game_id].players@.contains_key(
                player_id,
            ) ==> r == Err::<bool, GameError>(GameError::NotFound) && final (self).games@ == old(
                self,
            ).games@,
            old(self).games@.contains_key(game_id) && old(self).games@[game_id].players@.contains_key(
                player_id,
            ) ==> {
                &&& final (self).games@ == old(self).games@.insert(
                    game_id,
                    final (self).games@[game_id],
                )
                &&& set_ready_post(
                    old(self).games@[game_id],
                    final (self).games@[game_id],
                    old(self).games@[game_id].players@[player_id] as usize,
                    ready,
                    r,
                )
            },
    {
        let taken = self.games.remove(&game_id);
        match taken {
            None => {
                proof {
                    assert(self.games@ =~= old(self).games@);
                }
                Err(GameError::TableNotFound)
            },
            Some(mut game) => {
                let seat: usize = match game.players.get(&player_id) {
                    None => {
                        self.games.insert(game_id, game);
                        proof {
                            assert(self.games@ =~= old(self).games@);
                        }
                        return Err(GameError::NotFound);
                    },
                    Some(seat) => *seat,
                };
                let res = game.set_ready(seat, ready);
                self.games.insert(game_id, game);
                proof {
                    assert(self.games@ =~= old(self).games@.insert(game_id, self.games@[game_id]));
                }
                res
            },
        }
    }

    /// Resolves the caller to a seat at the given table and forwards the
    /// action; the action behaves exactly as `Game::player_action`
    /// promises.
    pub fn perform_action(
        &mut self,
        game_id: u64,
        player_id: u64,
        action: PlayerAction,
        amount: u64,
    ) -> (r: Result<(), GameError>)
        requires
            old(self).wf(),
        ensures
            final (self).wf(),
            final (self).ids@ == old(self).ids@,
            !old(self).games@.contains_key(game_id) ==> r == Err::<(), GameError>(
                GameError::TableNotFound,
            ) && final (self).games@ == old(self).games@,
            old(self).games@.contains_key(game_id) && !old(self).games@[game_id].players@.contains_key(
                player_id,
            ) ==> r == Err::<(), GameError>(GameError::NotFound) && final (self).games@ == old(
                self,
            ).games@,
            old(self).games@.contains_key(game_id) && old(self).games@[game_id].players@.contains_key(
                player_id,
            ) ==> {
                &&& final (self).games@ == old(self).games@.insert(
                    game_id,
                    final (self).games@[game_id],
                )
                &&& action_post(
                    old(self).games@[game_id],
                    final (self).games@[game_id],
                    old(self).games@[game_id].players@[player_id] as usize,
                    action,
                    amount,
                    r,
                )
            },
    {
        let taken = self.games.remove(&game_id);
        match taken {
            None => {
                proof {
                    assert(self.games@ =~= old(self).games@);
                }
                Err(GameError::TableNotFound)
            },
            Some(mut game) => {
                let seat: usize = match game.players.get(&player_id) {
                    None => {
                        self.games.insert(game_id, game);
                        proof {
                            assert(self.games@ =~= old(self).games@);
                        }
                        return Err(GameError::NotFound);
                    },
                    Some(seat) => *seat,
                };
                let res = game.player_action(seat, action, amount);
                self.games.insert(game_id, game);
                proof {
                    assert(self.games@ =~= old(self).games@.insert(game_id, self.games@[game_id]));
                }
                res
            },
        }
    }

    /// A lobby summary of every table, in creation order.
    pub fn get_all_games_data(&self) -> (r: Vec<GameData>)
        requires
            self.wf(),
        ensures
            r@.len() == self.ids@.len(),
            forall|k: int|
                0 <= k < self.ids@.len() ==> summary_of(
                    self.games@[self.ids@[k]],
                    self.ids@[k],
                    #[trigger] r@[k],
                ),
    {
        let mut all_games_data: Vec<GameData> = Vec::new();
        let ids_len = self.ids.len();
        let mut k: usize = 0;
        while k < ids_len
            invariant
                self.wf(),
                ids_len == self.ids@.len(),
                k <= ids_len,
                all_games_data@.len() == k,
                forall|m: int|
                    0 <= m < k ==> summary_of(
                        self.games@[self.ids@[m]],
                        self.ids@[m],
                        #[trigger] all_games_data@[m],
                    ),
            decreases ids_len - k,
        {
            let game_id = self.ids[k];
            match self.games.get(&game_id) {
                Some(game) => {
                    let game_data = GameData {
                        game_id,
                        seats_count: game.max_players,
                        seats_occupied: game.players_count(),
                        small_blind: game.small_blind,
                        big_blind: game.big_blind,
                        initial_balance: game.initial_balance,
                        game_state: game.game_state,
                    };
                    all_games_data.push(game_data);
                },
                None => {
                    // The invariant ties every listed identifier to a
                    // stored table, so this arm is unreachable.
                    proof {
                        assert(false);
                    }
                },
            }
            k = k + 1;
        }
        all_games_data
    }

    /// A viewer's snapshot of the table with the given identifier.
    pub fn get_game_state(&self, game_id: u64, player_id: u64) -> (r: Result<GameState, GameError>)
        requires
            self.wf(),
        ensures
            self.games@.contains_key(game_id) ==> (r matches Ok(st) && snapshot_post(
                self.games@[game_id],
                player_id,
                st,
            )),
            !self.games@.contains_key(game_id) ==> r == Err::<GameState, GameError>(
                GameError::TableNotFound,
            ),
    {
        match self.games.get(&game_id) {
            None => Err(GameError::TableNotFound),
            Some(game) => Ok(game.collect_state_data(player_id)),
        }
    }
}

} // verus!
