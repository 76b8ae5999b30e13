//! Game session manager and phase transition engine: the entry point
//! external collaborators call.
//!
//! The manager owns the store (the single source of truth) and a
//! time-bounded cache in front of it. Reads are cache-first and fall
//! through to the store on a miss; every mutation is written to the store
//! first and only then reflected in the cache, by invalidating (or, for
//! configuration, refreshing) the guild's entry. The manager's invariant
//! keeps the cache coherent: whatever the cache holds for a guild is
//! exactly what the store holds for that guild.

use vstd::prelude::*;
use crate::cache::GameCache;
use crate::state::{
    distinct_ids, has_player, is_open_status, player_index, player_of, Game, GameState,
    GameStatus, Player, ServerConfig,
};
use crate::store::{
    cast_vote_effect, clear_votes_seq, config_at, has_config, has_open_game, open_game_index,
    Store, lemma_open_game_unique,
};
use crate::tally::{is_ranking, vote_tally, TallyEntry};

verus! {

/// Smallest number of players a game can start with.
pub const MIN_PLAYERS: usize = 3;

/// Why an operation was refused. Every variant is recoverable by the
/// caller; a lost phase-transition race is not an error at all.
#[derive(Clone, Copy, Debug, PartialEq, Eq, Structural)]
pub enum GameError {
    /// An open game already exists for the guild.
    Conflict,
    /// The operation is not valid for the game's current status or phase,
    /// or no such game exists.
    InvalidState,
    /// The user already joined this game.
    AlreadyJoined,
    /// The user is not a player of this game.
    NotAPlayer,
    /// The vote target is not a player of this game.
    UnknownPlayer,
    /// Dead players cannot vote.
    DeadPlayer,
    /// A player cannot vote for themselves.
    SelfVote,
    /// There is no standing vote to retract.
    NoVote,
    /// Fewer players than a game needs to start.
    InsufficientPlayers,
    /// A store call exceeded its time bound. Surfaced by store adapters
    /// at the process edge; the in-memory store never produces it.
    StoreTimeout,
    /// The store could not be reached. Surfaced by store adapters at the
    /// process edge; the in-memory store never produces it.
    StoreUnavailable,
}

/// What a phase advance produced: the phase and day now in force, and the
/// day's elimination ranking (empty on the night-to-day edge).
pub struct AdvanceResult {
    pub new_day_phase: bool,
    pub new_day_number: u64,
    pub elimination_ranking: Vec<TallyEntry>,
}

/// The session manager: authoritative store plus read-through cache.
pub struct SessionManager {
    pub store: Store,
    pub cache: GameCache,
}

impl SessionManager {
    /// Every cached game entry mirrors the guild's open game in the
    /// store, and every cached configuration mirrors the stored row.
    /// Mutations preserve this by writing the store first and then
    /// invalidating or refreshing the guild's cache entry.
    pub open spec fn cache_coherent(self) -> bool {
        &&& forall|g: u64|
            #[trigger] self.cache.games.spec_has(g) ==> has_open_game(self.store.games@, g)
                && self.cache.games.spec_slot(g).value@ == self.store.games@[
                open_game_index(self.store.games@, g)
            ].as_state()
        &&& forall|g: u64|
            #[trigger] self.cache.configs.spec_has(g) ==> has_config(self.store.configs@, g)
                && self.cache.configs.spec_slot(g).value == config_at(self.store.configs@, g)
    }

    /// Store and cache are each well formed, and the cache is coherent.
    pub open spec fn wf(self) -> bool {
        &&& self.store.wf()
        &&& self.cache.wf()
        &&& self.cache_coherent()
    }

    /// The guild's open game as the store records it.
    pub open spec fn spec_active_game(self, guild_id: u64) -> Option<
        crate::state::GameStateView,
    > {
        if has_open_game(self.store.games@, guild_id) {
            Some(self.store.games@[open_game_index(self.store.games@, guild_id)].as_state())
        } else {
            None
        }
    }

    /// A manager over an empty store, with nothing cached.
    pub fn new() -> (m: SessionManager)
        ensures
            m.wf(),
            m.store.games@.len() == 0,
            m.store.configs@.len() == 0,
    {
        SessionManager { store: Store::new(), cache: GameCache::new() }
    }

    /// The game in `Setup`, `Signup` or `Active` status for the guild,
    /// cache-first: a fresh cached copy is served directly, a miss falls
    /// through to the store and refills the cache. Either way the result
    /// is exactly what the store holds; the store itself is untouched.
    pub fn get_active_game(&mut self, guild_id: u64, now: u64) -> (r: Option<GameState>)
        requires
            old(self).wf(),
        ensures
            final(self).wf(),
            final(self).store == old(self).store,
            match r {
                Some(gs) => old(self).spec_active_game(guild_id) == Some(gs@),
                None => old(self).spec_active_game(guild_id) is None,
            },
    {
        if let Some(g) = self.cache.get_game(guild_id, now) {
            proof {
                assert(self.cache.games.spec_has(guild_id));
            }
            return Some(g);
        }
        match self.store.load_game(guild_id) {
            Some(g) => {
                let result = g.duplicate();
                self.cache.set_game(guild_id, g, now);
                proof {
                    assert forall|g2: u64| #[trigger]
                        self.cache.games.spec_has(g2) implies has_open_game(self.store.games@, g2)
                        && self.cache.games.spec_slot(g2).value@ == self.store.games@[
                        open_game_index(self.store.games@, g2)
                    ].as_state() by {
                        if g2 != guild_id {
                            assert(old(self).cache.games.spec_has(g2));
                        }
                    }
                }
                Some(result)
            },
            None => None,
        }
    }

    /// Create a game for the guild in `Signup` status (day phase set, day
    /// number zero) and return its id. Refused with `Conflict` exactly
    /// when the guild already has an open game — the check runs against
    /// the store, never against a cached copy, which enforces the
    /// one-open-game-per-guild invariant.
    pub fn create_game(&mut self, guild_id: u64, creator_user_id: u64, now: u64) -> (r: Result<
        u64,
        GameError,
    >)
        requires
            old(self).wf(),
        ensures
            final(self).wf(),
            match r {
                Ok(id) => !has_open_game(old(self).store.games@, guild_id) && id == old(self).store.games@.len() && final(self).store.games@.len() == old(self).store.games@.len() + 1 && (forall|i: int|
                    0 <= i < old(self).store.games@.len() ==> final(self).store.games@[i] == old(self).store.games@[i]) && final(self).store.games@[id as int].game == (Game {
                    game_id: id,
                    guild_id,
                    created_by: creator_user_id,
                    status: GameStatus::Signup,
                    day_phase: true,
                    day_number: 0,
                    created_at: now,
                    ended_at: None,
                }) && final(self).store.games@[id as int].players@.len() == 0 && final(self).spec_active_game(guild_id) == Some(
                    final(self).store.games@[id as int].as_state(),
                ) && final(self).store.configs == old(self).store.configs,
                Err(e) => e == GameError::Conflict && has_open_game(
                    old(self).store.games@,
                    guild_id,
                ) && *final(self) == *old(self),
            },
    {
        match self.store.load_game(guild_id) {
            Some(_) => Err(GameError::Conflict),
            None => {
                let id = self.store.insert_game(guild_id, creator_user_id, now);
                proof {
                    let pre = old(self).store.games@;
                    let post = self.store.games@;
                    assert forall|g2: u64| #[trigger]
                        self.cache.games.spec_has(g2) implies has_open_game(post, g2)
                        && self.cache.games.spec_slot(g2).value@ == post[
                        open_game_index(post, g2)
                    ].as_state() by {
                        assert(old(self).cache.games.spec_has(g2));
                        assert(has_open_game(pre, g2));
                        assert(g2 != guild_id);
                        let i = open_game_index(pre, g2);
                        assert(post[i] == pre[i]);
                        assert(has_open_game(post, g2));
                        lemma_open_game_unique(post, g2, i, open_game_index(post, g2));
                    }
                }
                Ok(id)
            },
        }
    }

    /// Add the user to the game. Only games in `Signup` accept players,
    /// and a user joins a game at most once.
    pub fn join_game(&mut self, game_id: u64, user_id: u64) -> (r: Result<(), GameError>)
        requires
            old(self).wf(),
        ensures
            final(self).wf(),
            match r {
                Ok(_) => game_id < old(self).store.games@.len() && old(self).store.games@[
                    game_id as int
                ].game.status == GameStatus::Signup && !has_player(
                    old(self).store.games@[game_id as int].players@,
                    user_id,
                ) && final(self).store.games@.len() == old(self).store.games@.len() && (forall|
                    i: int,
                |
                    0 <= i < old(self).store.games@.len() && i != game_id ==> final(self).store.games@[i] == old(self).store.games@[i]) && final(self).store.games@[
                    game_id as int
                ].game == old(self).store.games@[game_id as int].game && final(self).store.games@[
                    game_id as int
                ].players@ == old(self).store.games@[game_id as int].players@.push(
                    Player { user_id, role_id: None, is_alive: true, votes_for: None },
                ) && final(self).store.configs == old(self).store.configs,
                Err(GameError::InvalidState) => (game_id >= old(self).store.games@.len() || old(self).store.games@[game_id as int].game.status != GameStatus::Signup) && *final(self)
                    == *old(self),
                Err(GameError::AlreadyJoined) => game_id < old(self).store.games@.len() && old(self).store.games@[game_id as int].game.status == GameStatus::Signup && has_player(
                    old(self).store.games@[game_id as int].players@,
                    user_id,
                ) && *final(self) == *old(self),
                Err(_) => false,
            },
    {
        let n = self.store.games.len();
        if game_id >= n as u64 {
            return Err(GameError::InvalidState);
        }
        let idx = self.store.game_index(game_id);
        if !matches!(self.store.games[idx].game.status, GameStatus::Signup) {
            return Err(GameError::InvalidState);
        }
        if crate::state::find_player(&self.store.games[idx].players, user_id).is_some() {
            return Err(GameError::AlreadyJoined);
        }
        let guild_id = self.store.games[idx].game.guild_id;
        self.store.insert_player(game_id, user_id);
        self.cache.invalidate_game(guild_id);
        proof {
            self.lemma_restore_coherence_after_row_update(*old(self), game_id, guild_id);
        }
        Ok(())
    }

    /// Remove the user from the game. Players may leave at any time;
    /// leaving does not adjust other players' vote targets.
    pub fn leave_game(&mut self, game_id: u64, user_id: u64) -> (r: Result<(), GameError>)
        requires
            old(self).wf(),
        ensures
            final(self).wf(),
            match r {
                Ok(_) => game_id < old(self).store.games@.len() && has_player(
                    old(self).store.games@[game_id as int].players@,
                    user_id,
                ) && final(self).store.games@.len() == old(self).store.games@.len() && (forall|
                    i: int,
                |
                    0 <= i < old(self).store.games@.len() && i != game_id ==> final(self).store.games@[i] == old(self).store.games@[i]) && final(self).store.games@[
                    game_id as int
                ].game == old(self).store.games@[game_id as int].game && final(self).store.games@[
                    game_id as int
                ].players@ == old(self).store.games@[game_id as int].players@.remove(
                    player_index(old(self).store.games@[game_id as int].players@, user_id),
                ) && final(self).store.configs == old(self).store.configs,
                Err(GameError::InvalidState) => game_id >= old(self).store.games@.len() && *final(self) == *old(self),
                Err(GameError::NotAPlayer) => game_id < old(self).store.games@.len()
                    && !has_player(old(self).store.games@[game_id as int].players@, user_id)
                    && *final(self) == *old(self),
                Err(_) => false,
            },
    {
        let n = self.store.games.len();
        if game_id >= n as u64 {
            return Err(GameError::InvalidState);
        }
        let idx = self.store.game_index(game_id);
        if crate::state::find_player(&self.store.games[idx].players, user_id).is_none() {
            return Err(GameError::NotAPlayer);
        }
        let guild_id = self.store.games[idx].game.guild_id;
        self.store.delete_player(game_id, user_id);
        self.cache.invalidate_game(guild_id);
        proof {
            self.lemma_restore_coherence_after_row_update(*old(self), game_id, guild_id);
        }
        Ok(())
    }

    /// Start the game: `Signup` becomes `Active` and day one begins.
    /// Refused while fewer than `MIN_PLAYERS` players signed up — the
    /// game then stays in `Signup`, untouched.
    pub fn start_game(&mut self, game_id: u64) -> (r: Result<(), GameError>)
        requires
            old(self).wf(),
        ensures
            final(self).wf(),
            match r {
                Ok(_) => game_id < old(self).store.games@.len() && old(self).store.games@[
                    game_id as int
                ].game.status == GameStatus::Signup && old(self).store.games@[
                    game_id as int
                ].players@.len() >= MIN_PLAYERS && final(self).store.games@.len() == old(self).store.games@.len() && (forall|i: int|
                    0 <= i < old(self).store.games@.len() && i != game_id ==> final(self).store.games@[i] == old(self).store.games@[i]) && final(self).store.games@[
                    game_id as int
                ].game == (Game {
                    status: GameStatus::Active,
                    day_number: 1,
                    ..old(self).store.games@[game_id as int].game
                }) && final(self).store.games@[game_id as int].players@ == old(self).store.games@[game_id as int].players@ && final(self).store.configs == old(self).store.configs,
                Err(GameError::InvalidState) => (game_id >= old(self).store.games@.len() || old(self).store.games@[game_id as int].game.status != GameStatus::Signup) && *final(self)
                    == *old(self),
                Err(GameError::InsufficientPlayers) => game_id < old(self).store.games@.len()
                    && old(self).store.games@[game_id as int].game.status == GameStatus::Signup
                    && old(self).store.games@[game_id as int].players@.len() < MIN_PLAYERS
                    && *final(self) == *old(self),
                Err(_) => false,
            },
    {
        let n = self.store.games.len();
        if game_id >= n as u64 {
            return Err(GameError::InvalidState);
        }
        let idx = self.store.game_index(game_id);
        if !matches!(self.store.games[idx].game.status, GameStatus::Signup) {
            return Err(GameError::InvalidState);
        }
        if self.store.games[idx].players.len() < MIN_PLAYERS {
            return Err(GameError::InsufficientPlayers);
        }
        let guild_id = self.store.games[idx].game.guild_id;
        // Activation records no time stamp, so the end-time argument is idle.
        self.store.set_game_status(game_id, GameStatus::Active, 0);
        self.cache.invalidate_game(guild_id);
        proof {
            self.lemma_restore_coherence_after_row_update(*old(self), game_id, guild_id);
        }
        Ok(())
    }

    /// End the game: its status becomes `Ended` and the end time is
    /// recorded, exactly once. Refused when the game already ended.
    pub fn end_game(&mut self, game_id: u64, now: u64) -> (r: Result<(), GameError>)
        requires
            old(self).wf(),
        ensures
            final(self).wf(),
            match r {
                Ok(_) => game_id < old(self).store.games@.len() && old(self).store.games@[
                    game_id as int
                ].game.status != GameStatus::Ended && final(self).store.games@.len() == old(self).store.games@.len() && (forall|i: int|
                    0 <= i < old(self).store.games@.len() && i != game_id ==> final(self).store.games@[i] == old(self).store.games@[i]) && final(self).store.games@[
                    game_id as int
                ].game == (Game {
                    status: GameStatus::Ended,
                    ended_at: Some(now),
                    ..old(self).store.games@[game_id as int].game
                }) && final(self).store.games@[game_id as int].players@ == old(self).store.games@[game_id as int].players@ && final(self).store.configs == old(self).store.configs,
                Err(GameError::InvalidState) => (game_id >= old(self).store.games@.len() || old(self).store.games@[game_id as int].game.status == GameStatus::Ended) && *final(self)
                    == *old(self),
                Err(_) => false,
            },
    {
        let n = self.store.games.len();
        if game_id >= n as u64 {
            return Err(GameError::InvalidState);
        }
        let idx = self.store.game_index(game_id);
        if matches!(self.store.games[idx].game.status, GameStatus::Ended) {
            return Err(GameError::InvalidState);
        }
        let guild_id = self.store.games[idx].game.guild_id;
        self.store.set_game_status(game_id, GameStatus::Ended, now);
        self.cache.invalidate_game(guild_id);
        proof {
            self.lemma_restore_coherence_after_row_update(*old(self), game_id, guild_id);
        }
        Ok(())
    }

    /// Record or replace the voter's single vote target. Voting is only
    /// possible in an `Active` game during the day, only by an alive
    /// player of the game, never for oneself, and only for a current
    /// player of the game. A newer vote overwrites the older one.
    pub fn cast_vote(&mut self, game_id: u64, voter_id: u64, target_id: u64) -> (r: Result<
        (),
        GameError,
    >)
        requires
            old(self).wf(),
        ensures
            final(self).wf(),
            match r {
                Ok(_) => game_id < old(self).store.games@.len() && old(self).store.games@[
                    game_id as int
                ].game.status == GameStatus::Active && old(self).store.games@[
                    game_id as int
                ].game.day_phase && has_player(
                    old(self).store.games@[game_id as int].players@,
                    voter_id,
                ) && player_of(old(self).store.games@[game_id as int].players@, voter_id).is_alive
                    && voter_id != target_id && has_player(
                    old(self).store.games@[game_id as int].players@,
                    target_id,
                ) && final(self).store.games@.len() == old(self).store.games@.len() && (forall|
                    i: int,
                |
                    0 <= i < old(self).store.games@.len() && i != game_id ==> final(self).store.games@[i] == old(self).store.games@[i]) && final(self).store.games@[
                    game_id as int
                ].game == old(self).store.games@[game_id as int].game && final(self).store.games@[
                    game_id as int
                ].players@ == cast_vote_effect(
                    old(self).store.games@[game_id as int].players@,
                    voter_id,
                    Some(target_id),
                ) && final(self).store.configs == old(self).store.configs,
                Err(GameError::InvalidState) => (game_id >= old(self).store.games@.len() || old(self).store.games@[game_id as int].game.status != GameStatus::Active || !old(self).store.games@[game_id as int].game.day_phase) && *final(self) == *old(self),
                Err(GameError::NotAPlayer) => game_id < old(self).store.games@.len() && old(self).store.games@[game_id as int].game.status == GameStatus::Active && old(self).store.games@[game_id as int].game.day_phase && !has_player(
                    old(self).store.games@[game_id as int].players@,
                    voter_id,
                ) && *final(self) == *old(self),
                Err(GameError::DeadPlayer) => game_id < old(self).store.games@.len() && old(self).store.games@[game_id as int].game.status == GameStatus::Active && old(self).store.games@[game_id as int].game.day_phase && has_player(
                    old(self).store.games@[game_id as int].players@,
                    voter_id,
                ) && !player_of(
                    old(self).store.games@[game_id as int].players@,
                    voter_id,
                ).is_alive && *final(self) == *old(self),
                Err(GameError::SelfVote) => game_id < old(self).store.games@.len() && old(self).store.games@[game_id as int].game.status == GameStatus::Active && old(self).store.games@[game_id as int].game.day_phase && has_player(
                    old(self).store.games@[game_id as int].players@,
                    voter_id,
                ) && player_of(old(self).store.games@[game_id as int].players@, voter_id).is_alive
                    && voter_id == target_id && *final(self) == *old(self),
                Err(GameError::UnknownPlayer) => game_id < old(self).store.games@.len() && old(self).store.games@[game_id as int].game.status == GameStatus::Active && old(self).store.games@[game_id as int].game.day_phase && has_player(
                    old(self).store.games@[game_id as int].players@,
                    voter_id,
                ) && player_of(old(self).store.games@[game_id as int].players@, voter_id).is_alive
                    && voter_id != target_id && !has_player(
                    old(self).store.games@[game_id as int].players@,
                    target_id,
                ) && *final(self) == *old(self),
                Err(_) => false,
            },
    {
        let n = self.store.games.len();
        if game_id >= n as u64 {
            return Err(GameError::InvalidState);
        }
        let idx = self.store.game_index(game_id);
        if !matches!(self.store.games[idx].game.status, GameStatus::Active)
            || !self.store.games[idx].game.day_phase {
            return Err(GameError::InvalidState);
        }
        let voter_at = crate::state::find_player(&self.store.games[idx].players, voter_id);
        match voter_at {
            None => {
                return Err(GameError::NotAPlayer);
            },
            Some(vi) => {
                proof {
                    crate::state::lemma_player_index_unique(
                        self.store.games@[game_id as int].players@,
                        voter_id,
                        vi as int,
                    );
                }
                if !self.store.games[idx].players[vi].is_alive {
                    return Err(GameError::DeadPlayer);
                }
            },
        }
        if voter_id == target_id {
            return Err(GameError::SelfVote);
        }
        if crate::state::find_player(&self.store.games[idx].players, target_id).is_none() {
            return Err(GameError::UnknownPlayer);
        }
        let guild_id = self.store.games[idx].game.guild_id;
        self.store.set_vote(game_id, voter_id, Some(target_id));
        self.cache.invalidate_game(guild_id);
        proof {
            self.lemma_restore_coherence_after_row_update(*old(self), game_id, guild_id);
        }
        Ok(())
    }

    /// Clear the voter's standing vote. Refused with `NoVote` exactly
    /// when no vote of theirs stands.
    pub fn retract_vote(&mut self, game_id: u64, voter_id: u64) -> (r: Result<(), GameError>)
        requires
            old(self).wf(),
        ensures
            final(self).wf(),
            match r {
                Ok(_) => game_id < old(self).store.games@.len() && has_player(
                    old(self).store.games@[game_id as int].players@,
                    voter_id,
                ) && player_of(
                    old(self).store.games@[game_id as int].players@,
                    voter_id,
                ).votes_for is Some && final(self).store.games@.len() == old(self).store.games@.len() && (forall|i: int|
                    0 <= i < old(self).store.games@.len() && i != game_id ==> final(self).store.games@[i] == old(self).store.games@[i]) && final(self).store.games@[
                    game_id as int
                ].game == old(self).store.games@[game_id as int].game && final(self).store.games@[
                    game_id as int
                ].players@ == cast_vote_effect(
                    old(self).store.games@[game_id as int].players@,
                    voter_id,
                    None,
                ) && final(self).store.configs == old(self).store.configs,
                Err(GameError::InvalidState) => game_id >= old(self).store.games@.len() && *final(self) == *old(self),
                Err(GameError::NotAPlayer) => game_id < old(self).store.games@.len()
                    && !has_player(old(self).store.games@[game_id as int].players@, voter_id)
                    && *final(self) == *old(self),
                Err(GameError::NoVote) => game_id < old(self).store.games@.len() && has_player(
                    old(self).store.games@[game_id as int].players@,
                    voter_id,
                ) && player_of(
                    old(self).store.games@[game_id as int].players@,
                    voter_id,
                ).votes_for is None && *final(self) == *old(self),
                Err(_) => false,
            },
    {
        let n = self.store.games.len();
        if game_id >= n as u64 {
            return Err(GameError::InvalidState);
        }
        let idx = self.store.game_index(game_id);
        match crate::state::find_player(&self.store.games[idx].players, voter_id) {
            None => {
                return Err(GameError::NotAPlayer);
            },
            Some(vi) => {
                proof {
                    crate::state::lemma_player_index_unique(
                        self.store.games@[game_id as int].players@,
                        voter_id,
                        vi as int,
                    );
                }
                if self.store.games[idx].players[vi].votes_for.is_none() {
                    return Err(GameError::NoVote);
                }
            },
        }
        let guild_id = self.store.games[idx].game.guild_id;
        self.store.set_vote(game_id, voter_id, None);
        self.cache.invalidate_game(guild_id);
        proof {
            self.lemma_restore_coherence_after_row_update(*old(self), game_id, guild_id);
        }
        Ok(())
    }

    /// The current ranking of an `Active` game's day votes, computed
    /// from the authoritative player rows.
    pub fn get_vote_tally(&self, game_id: u64) -> (r: Result<Vec<TallyEntry>, GameError>)
        requires
            self.wf(),
        ensures
            match r {
                Ok(t) => game_id < self.store.games@.len() && self.store.games@[
                    game_id as int
                ].game.status == GameStatus::Active && is_ranking(
                    self.store.games@[game_id as int].players@,
                    t@,
                ),
                Err(e) => e == GameError::InvalidState && (game_id >= self.store.games@.len()
                    || self.store.games@[game_id as int].game.status != GameStatus::Active),
            },
    {
        let n = self.store.games.len();
        if game_id >= n as u64 {
            return Err(GameError::InvalidState);
        }
        let idx = self.store.game_index(game_id);
        if !matches!(self.store.games[idx].game.status, GameStatus::Active) {
            return Err(GameError::InvalidState);
        }
        Ok(vote_tally(&self.store.games[idx].players))
    }

    /// Whether a phase advance stays within the day counter's range: only
    /// the night-to-day edge increments the day number, so only there a
    /// bound is needed. Machine limit, not a game rule.
    pub open spec fn advance_in_bounds(self, game_id: u64) -> bool {
        (game_id < self.store.games@.len() && self.store.games@[
            game_id as int
        ].game.status == GameStatus::Active && !self.store.games@[game_id as int].game.day_phase)
            ==> self.store.games@[game_id as int].game.day_number < u64::MAX
    }

    /// Advance the game one phase, as one atomic unit against the store.
    ///
    /// Day to night: the day's votes are tallied before anything is
    /// cleared, the ranking is returned as the day's elimination result
    /// (applying it to player aliveness is the surrounding rules layer's
    /// extension point), all votes of the game are cleared, and the phase
    /// flips; the day number is unchanged. Night to day: the phase flips
    /// and the day number increments; no vote processing. Either way the
    /// guild's cache entry is invalidated after the update commits, and
    /// the conditional store update serialises racing advances.
    pub fn advance_phase(&mut self, game_id: u64) -> (r: Result<AdvanceResult, GameError>)
        requires
            old(self).wf(),
            old(self).advance_in_bounds(game_id),
        ensures
            final(self).wf(),
            match r {
                Ok(res) => game_id < old(self).store.games@.len() && old(self).store.games@[
                    game_id as int
                ].game.status == GameStatus::Active && final(self).store.games@.len() == old(self).store.games@.len() && (forall|i: int|
                    0 <= i < old(self).store.games@.len() && i != game_id ==> final(self).store.games@[i] == old(self).store.games@[i]) && final(self).store.games@[
                    game_id as int
                ].game == (Game {
                    day_phase: res.new_day_phase,
                    day_number: res.new_day_number,
                    ..old(self).store.games@[game_id as int].game
                }) && final(self).store.configs == old(self).store.configs && (if old(self).store.games@[game_id as int].game.day_phase {
                    res.new_day_phase == false && res.new_day_number == old(self).store.games@[
                        game_id as int
                    ].game.day_number && is_ranking(
                        old(self).store.games@[game_id as int].players@,
                        res.elimination_ranking@,
                    ) && final(self).store.games@[game_id as int].players@ == clear_votes_seq(
                        old(self).store.games@[game_id as int].players@,
                    )
                } else {
                    res.new_day_phase == true && res.new_day_number == old(self).store.games@[
                        game_id as int
                    ].game.day_number + 1 && res.elimination_ranking@.len() == 0 && final(self).store.games@[game_id as int].players@ == old(self).store.games@[
                        game_id as int
                    ].players@
                }),
                Err(e) => e == GameError::InvalidState && (game_id >= old(self).store.games@.len()
                    || old(self).store.games@[game_id as int].game.status != GameStatus::Active)
                    && *final(self) == *old(self),
            },
    {
        let n = self.store.games.len();
        if game_id >= n as u64 {
            return Err(GameError::InvalidState);
        }
        let idx = self.store.game_index(game_id);
        if !matches!(self.store.games[idx].game.status, GameStatus::Active) {
            return Err(GameError::InvalidState);
        }
        let guild_id = self.store.games[idx].game.guild_id;
        let day_phase = self.store.games[idx].game.day_phase;
        let day_number = self.store.games[idx].game.day_number;
        if day_phase {
            let ranking = vote_tally(&self.store.games[idx].players);
            let applied = self.store.transition_phase(game_id, true, false, day_number);
            proof {
                assert(applied);
            }
            self.cache.invalidate_game(guild_id);
            proof {
                self.lemma_restore_coherence_after_row_update(*old(self), game_id, guild_id);
            }
            Ok(
                AdvanceResult {
                    new_day_phase: false,
                    new_day_number: day_number,
                    elimination_ranking: ranking,
                },
            )
        } else {
            let new_day = day_number + 1;
            let applied = self.store.transition_phase(game_id, false, true, new_day);
            proof {
                assert(applied);
            }
            self.cache.invalidate_game(guild_id);
            proof {
                self.lemma_restore_coherence_after_row_update(*old(self), game_id, guild_id);
            }
            Ok(
                AdvanceResult {
                    new_day_phase: true,
                    new_day_number: new_day,
                    elimination_ranking: Vec::new(),
                },
            )
        }
    }

    /// Store the guild's configuration (inserting or replacing its row)
    /// and refresh the cached copy after the store write committed.
    pub fn upsert_server_config(&mut self, config: ServerConfig, now: u64)
        requires
            old(self).wf(),
        ensures
            final(self).wf(),
            final(self).store.games == old(self).store.games,
            has_config(final(self).store.configs@, config.guild_id),
            config_at(final(self).store.configs@, config.guild_id) == config,
            forall|g: u64|
                g != config.guild_id ==> has_config(final(self).store.configs@, g) == has_config(
                    old(self).store.configs@,
                    g,
                ),
            forall|g: u64|
                g != config.guild_id && #[trigger] has_config(final(self).store.configs@, g)
                    ==> config_at(final(self).store.configs@, g) == config_at(
                    old(self).store.configs@,
                    g,
                ),
    {
        let guild_id = config.guild_id;
        let cached_copy = config.duplicate();
        self.store.upsert_config(config);
        self.cache.set_server_config(guild_id, cached_copy, now);
        proof {
            assert forall|g2: u64| #[trigger]
                self.cache.configs.spec_has(g2) implies has_config(self.store.configs@, g2)
                && self.cache.configs.spec_slot(g2).value == config_at(
                self.store.configs@,
                g2,
            ) by {
                if g2 != guild_id {
                    assert(old(self).cache.configs.spec_has(g2));
                }
            }
            assert forall|g2: u64| #[trigger]
                self.cache.games.spec_has(g2) implies has_open_game(self.store.games@, g2)
                && self.cache.games.spec_slot(g2).value@ == self.store.games@[
                open_game_index(self.store.games@, g2)
            ].as_state() by {
                assert(old(self).cache.games.spec_has(g2));
            }
        }
    }

    /// The guild's configuration, cache-first with fall-through to the
    /// store; a miss refills the cache. The store is untouched.
    pub fn get_server_config(&mut self, guild_id: u64, now: u64) -> (r: Option<ServerConfig>)
        requires
            old(self).wf(),
        ensures
            final(self).wf(),
            final(self).store == old(self).store,
            match r {
                Some(c) => has_config(old(self).store.configs@, guild_id) && c == config_at(
                    old(self).store.configs@,
                    guild_id,
                ),
                None => !has_config(old(self).store.configs@, guild_id),
            },
    {
        if let Some(c) = self.cache.get_server_config(guild_id, now) {
            proof {
                assert(self.cache.configs.spec_has(guild_id));
            }
            return Some(c);
        }
        match self.store.load_config(guild_id) {
            Some(c) => {
                let result = c.duplicate();
                self.cache.set_server_config(guild_id, c, now);
                proof {
                    assert forall|g2: u64| #[trigger]
                        self.cache.configs.spec_has(g2) implies has_config(
                        self.store.configs@,
                        g2,
                    ) && self.cache.configs.spec_slot(g2).value == config_at(
                        self.store.configs@,
                        g2,
                    ) by {
                        if g2 != guild_id {
                            assert(old(self).cache.configs.spec_has(g2));
                        }
                    }
                    assert forall|g2: u64| #[trigger]
                        self.cache.games.spec_has(g2) implies has_open_game(self.store.games@, g2)
                        && self.cache.games.spec_slot(g2).value@ == self.store.games@[
                        open_game_index(self.store.games@, g2)
                    ].as_state() by {
                        assert(old(self).cache.games.spec_has(g2));
                    }
                }
                Some(result)
            },
            None => None,
        }
    }

    /// Drop the guild's cached game state and re-derive it from the
    /// store: the answer can never be a previously cached value, even one
    /// whose time-to-live had not elapsed.
    pub fn refresh(&mut self, guild_id: u64, now: u64) -> (r: Option<GameState>)
        requires
            old(self).wf(),
        ensures
            final(self).wf(),
            final(self).store == old(self).store,
            match r {
                Some(gs) => old(self).spec_active_game(guild_id) == Some(gs@),
                None => old(self).spec_active_game(guild_id) is None,
            },
    {
        self.cache.invalidate_game(guild_id);
        proof {
            assert forall|g2: u64| #[trigger]
                self.cache.games.spec_has(g2) implies has_open_game(self.store.games@, g2)
                && self.cache.games.spec_slot(g2).value@ == self.store.games@[
                open_game_index(self.store.games@, g2)
            ].as_state() by {
                assert(old(self).cache.games.spec_has(g2));
            }
        }
        self.get_active_game(guild_id, now)
    }

    /// Re-establish cache coherence after one game row was updated in
    /// place (its guild kept) and the guild's cache entry was dropped:
    /// every remaining cache entry belongs to another guild, whose open
    /// game in the store is untouched.
    proof fn lemma_restore_coherence_after_row_update(
        self,
        pre: SessionManager,
        game_id: u64,
        guild_id: u64,
    )
        requires
            pre.wf(),
            self.cache.wf(),
            self.store.wf(),
            game_id < pre.store.games@.len(),
            pre.store.games@[game_id as int].game.guild_id == guild_id,
            self.store.games@.len() == pre.store.games@.len(),
            forall|i: int|
                0 <= i < pre.store.games@.len() && i != game_id ==> self.store.games@[i]
                    == pre.store.games@[i],
            self.store.games@[game_id as int].game.guild_id == guild_id,
            self.store.configs == pre.store.configs,
            !self.cache.games.spec_has(guild_id),
            forall|k: u64|
                k != guild_id && #[trigger] self.cache.games.spec_has(k) ==> pre.cache.games.spec_has(
                    k,
                ) && self.cache.games.spec_slot(k) == pre.cache.games.spec_slot(k),
            self.cache.configs == pre.cache.configs,
        ensures
            self.cache_coherent(),
    {
        let a = pre.store.games@;
        let b = self.store.games@;
        assert forall|g2: u64| #[trigger]
            self.cache.games.spec_has(g2) implies has_open_game(b, g2)
            && self.cache.games.spec_slot(g2).value@ == b[open_game_index(b, g2)].as_state() by {
            assert(g2 != guild_id);
            assert(pre.cache.games.spec_has(g2));
            assert(has_open_game(a, g2));
            let i = open_game_index(a, g2);
            assert(a[i].game.guild_id == g2 && is_open_status(a[i].game.status));
            assert(i != game_id);
            assert(b[i] == a[i]);
            assert(has_open_game(b, g2));
            lemma_open_game_unique(b, g2, i, open_game_index(b, g2));
        }
    }
}

/// Casting a vote, retracting it, then casting the same vote again leaves
/// exactly the state of casting it once: retraction undoes a cast, and a
/// repeated cast is idempotent. The engine's `cast_vote` and
/// `retract_vote` promise precisely these effects on the player rows.
pub proof fn lemma_cast_retract_cast(ps: Seq<Player>, voter_id: u64, target_id: u64)
    requires
        distinct_ids(ps),
        has_player(ps, voter_id),
    ensures
        cast_vote_effect(
            cast_vote_effect(cast_vote_effect(ps, voter_id, Some(target_id)), voter_id, None),
            voter_id,
            Some(target_id),
        ) == cast_vote_effect(ps, voter_id, Some(target_id)),
{
    let i = player_index(ps, voter_id);
    assert(0 <= i < ps.len() && ps[i].user_id == voter_id);
    let s1 = cast_vote_effect(ps, voter_id, Some(target_id));
    assert(distinct_ids(s1)) by {
        assert(forall|j: int| 0 <= j < ps.len() ==> s1[j].user_id == ps[j].user_id);
    }
    crate::state::lemma_player_index_unique(s1, voter_id, i);
    let s2 = cast_vote_effect(s1, voter_id, None);
    assert(distinct_ids(s2)) by {
        assert(forall|j: int| 0 <= j < ps.len() ==> s2[j].user_id == ps[j].user_id);
    }
    crate::state::lemma_player_index_unique(s2, voter_id, i);
    let s3 = cast_vote_effect(s2, voter_id, Some(target_id));
    assert(s3 =~= s1);
}

} // verus!
