//! The system of record: games, their players and per-guild configuration,
//! with the narrow update interface the session manager relies on.
//!
//! The store owns durable truth. Its central invariants: game ids are
//! stable and unique, player lists are well formed, `ended_at` is set
//! exactly when a game has ended, and each guild has at most one game that
//! is not yet ended. Phase changes go through a single conditional update,
//! `transition_phase`, so that two racing advances cannot both apply.

use vstd::prelude::*;
use crate::state::{
    has_player, is_open_status, player_index, players_wf, Game, GameState, GameStateView,
    GameStatus, Player, ServerConfig, copy_players, find_player, lemma_player_index_unique,
};

verus! {

/// One game row together with its player rows.
pub struct GameRecord {
    pub game: Game,
    pub players: Vec<Player>,
}

impl GameRecord {
    /// The aggregate state this record describes.
    pub open spec fn as_state(self) -> GameStateView {
        GameStateView {
            game_id: self.game.game_id,
            guild_id: self.game.guild_id,
            status: self.game.status,
            players: self.players@,
            day_phase: self.game.day_phase,
            day_number: self.game.day_number,
        }
    }
}

/// Each guild has at most one game that is not yet ended.
pub open spec fn at_most_one_open(gs: Seq<GameRecord>) -> bool {
    forall|i: int, j: int|
        0 <= i < j < gs.len() && gs[i].game.guild_id == gs[j].game.guild_id ==> !(is_open_status(
            gs[i].game.status,
        ) && is_open_status(gs[j].game.status))
}

/// Well-formed game table: ids equal positions (so they are unique and
/// stable), player lists are well formed, `ended_at` is set exactly on
/// ended games, and no guild has two open games.
pub open spec fn games_wf(gs: Seq<GameRecord>) -> bool {
    &&& forall|i: int| 0 <= i < gs.len() ==> #[trigger] gs[i].game.game_id == i
    &&& forall|i: int| 0 <= i < gs.len() ==> players_wf(#[trigger] gs[i].players@)
    &&& forall|i: int|
        0 <= i < gs.len() ==> ((#[trigger] gs[i].game.status == GameStatus::Ended)
            <==> gs[i].game.ended_at is Some)
    &&& at_most_one_open(gs)
}

/// Whether the guild currently has a game that is not yet ended.
pub open spec fn has_open_game(gs: Seq<GameRecord>, guild_id: u64) -> bool {
    exists|i: int|
        0 <= i < gs.len() && gs[i].game.guild_id == guild_id && is_open_status(gs[i].game.status)
}

/// Index of the guild's open game; meaningful when `has_open_game` holds
/// and at most one open game exists.
pub open spec fn open_game_index(gs: Seq<GameRecord>, guild_id: u64) -> int {
    choose|i: int|
        0 <= i < gs.len() && gs[i].game.guild_id == guild_id && is_open_status(gs[i].game.status)
}

/// At most one non-terminal game exists per guild: any two open games of
/// one guild are the same row. This is the invariant `create_game`
/// enforces and every other operation preserves.
pub proof fn lemma_open_game_unique(gs: Seq<GameRecord>, guild_id: u64, i: int, j: int)
    requires
        at_most_one_open(gs),
        0 <= i < gs.len(),
        0 <= j < gs.len(),
        gs[i].game.guild_id == guild_id,
        gs[j].game.guild_id == guild_id,
        is_open_status(gs[i].game.status),
        is_open_status(gs[j].game.status),
    ensures
        i == j,
{
    if i < j {
        assert(!(is_open_status(gs[i].game.status) && is_open_status(gs[j].game.status)));
    }
    if j < i {
        assert(!(is_open_status(gs[j].game.status) && is_open_status(gs[i].game.status)));
    }
}

/// The player list after one voter's vote is set, replaced or cleared:
/// only that voter's `votes_for` changes.
pub open spec fn cast_vote_effect(ps: Seq<Player>, voter_id: u64, target: Option<u64>) -> Seq<
    Player,
> {
    ps.update(
        player_index(ps, voter_id),
        Player { votes_for: target, ..ps[player_index(ps, voter_id)] },
    )
}

/// The same players with every vote cleared; ids, roles and aliveness are
/// untouched.
pub open spec fn clear_votes_seq(ps: Seq<Player>) -> Seq<Player> {
    Seq::new(ps.len(), |i: int| Player { votes_for: None, ..ps[i] })
}

/// Whether a conditional phase update applies: the game must be `Active`
/// and its day phase must still be the one the caller observed.
pub open spec fn transition_applies(gs: Seq<GameRecord>, id: int, expected_day_phase: bool) -> bool {
    &&& 0 <= id < gs.len()
    &&& gs[id].game.status == GameStatus::Active
    &&& gs[id].game.day_phase == expected_day_phase
}

/// The effect of an applied phase update: the game's phase and day number
/// are replaced as one unit, votes are cleared exactly on the day-to-night
/// edge (`cleared`), and no other row changes.
pub open spec fn phase_updated(
    pre: Seq<GameRecord>,
    post: Seq<GameRecord>,
    id: int,
    new_day_phase: bool,
    new_day_number: u64,
    cleared: bool,
) -> bool {
    &&& post.len() == pre.len()
    &&& forall|i: int| 0 <= i < pre.len() && i != id ==> post[i] == pre[i]
    &&& 0 <= id < pre.len()
    &&& post[id].game == (Game {
        day_phase: new_day_phase,
        day_number: new_day_number,
        ..pre[id].game
    })
    &&& post[id].players@ == if cleared {
        clear_votes_seq(pre[id].players@)
    } else {
        pre[id].players@
    }
}

/// Two racing phase advances cannot both apply. Once one conditional
/// update with a given expected phase has applied (and flipped the phase),
/// a second update expecting the same phase no longer applies — and a
/// conditional update that does not apply changes nothing. Hence two
/// concurrent advances of the same game yield exactly one transition:
/// one day-number increment or one night transition, never both.
pub proof fn lemma_transition_race(
    pre: Seq<GameRecord>,
    post: Seq<GameRecord>,
    id: int,
    expected_day_phase: bool,
    new_day_number: u64,
)
    requires
        transition_applies(pre, id, expected_day_phase),
        phase_updated(pre, post, id, !expected_day_phase, new_day_number, expected_day_phase),
    ensures
        !transition_applies(post, id, expected_day_phase),
{
}

/// Whether a configuration row exists for the guild.
pub open spec fn has_config(cs: Seq<ServerConfig>, guild_id: u64) -> bool {
    exists|i: int| 0 <= i < cs.len() && cs[i].guild_id == guild_id
}

/// Index of the guild's configuration row.
pub open spec fn config_index(cs: Seq<ServerConfig>, guild_id: u64) -> int {
    choose|i: int| 0 <= i < cs.len() && cs[i].guild_id == guild_id
}

/// The guild's configuration row.
pub open spec fn config_at(cs: Seq<ServerConfig>, guild_id: u64) -> ServerConfig {
    cs[config_index(cs, guild_id)]
}

/// In-memory system of record.
pub struct Store {
    pub games: Vec<GameRecord>,
    pub configs: Vec<ServerConfig>,
}

impl Store {
    /// The game table is well formed and configuration rows are unique
    /// per guild.
    pub open spec fn wf(self) -> bool {
        &&& games_wf(self.games@)
        &&& forall|i: int, j: int|
            0 <= i < j < self.configs@.len() ==> self.configs@[i].guild_id
                != self.configs@[j].guild_id
    }

    /// An empty store.
    pub fn new() -> (s: Store)
        ensures
            s.wf(),
            s.games@.len() == 0,
            s.configs@.len() == 0,
    {
        Store { games: Vec::new(), configs: Vec::new() }
    }

    /// With the store well formed, any open-game index for a guild is the
    /// one `open_game_index` denotes.
    pub proof fn lemma_open_index(self, guild_id: u64, i: int)
        requires
            self.wf(),
            0 <= i < self.games@.len(),
            self.games@[i].game.guild_id == guild_id,
            is_open_status(self.games@[i].game.status),
        ensures
            open_game_index(self.games@, guild_id) == i,
            has_open_game(self.games@, guild_id),
    {
        assert(has_open_game(self.games@, guild_id));
        lemma_open_game_unique(
            self.games@,
            guild_id,
            i,
            open_game_index(self.games@, guild_id),
        );
    }

    /// Load the guild's game in `Setup`, `Signup` or `Active` status, with
    /// its players, or nothing when the guild has no such game.
    pub fn load_game(&self, guild_id: u64) -> (r: Option<GameState>)
        requires
            self.wf(),
        ensures
            match r {
                Some(gs) => has_open_game(self.games@, guild_id) && gs@ == self.games@[
                    open_game_index(self.games@, guild_id)
                ].as_state(),
                None => !has_open_game(self.games@, guild_id),
            },
    {
        let n = self.games.len();
        let mut i: usize = 0;
        while i < n
            invariant
                self.wf(),
                n == self.games@.len(),
                i <= n,
                forall|j: int|
                    0 <= j < i ==> !(self.games@[j].game.guild_id == guild_id && is_open_status(
                        self.games@[j].game.status,
                    )),
            decreases n - i,
        {
            let rec = &self.games[i];
            if rec.game.guild_id == guild_id && !matches!(rec.game.status, GameStatus::Ended) {
                proof {
                    self.lemma_open_index(guild_id, i as int);
                }
                return Some(
                    GameState {
                        game_id: rec.game.game_id,
                        guild_id: rec.game.guild_id,
                        status: rec.game.status,
                        players: copy_players(&rec.players),
                        day_phase: rec.game.day_phase,
                        day_number: rec.game.day_number,
                    },
                );
            }
            i = i + 1;
        }
        None
    }

    /// Create a game row for the guild in `Signup` status, day one not yet
    /// begun (day number zero, day phase set), with no players, and return
    /// its store-assigned id. The caller must have ruled out an existing
    /// open game, which keeps the one-open-game-per-guild invariant.
    pub fn insert_game(&mut self, guild_id: u64, creator_user_id: u64, now: u64) -> (id: u64)
        requires
            old(self).wf(),
            !has_open_game(old(self).games@, guild_id),
        ensures
            final(self).wf(),
            final(self).configs == old(self).configs,
            id == old(self).games@.len(),
            final(self).games@.len() == old(self).games@.len() + 1,
            forall|i: int|
                0 <= i < old(self).games@.len() ==> final(self).games@[i] == old(self).games@[i],
            final(self).games@[id as int].game == (Game {
                game_id: id,
                guild_id,
                created_by: creator_user_id,
                status: GameStatus::Signup,
                day_phase: true,
                day_number: 0,
                created_at: now,
                ended_at: None,
            }),
            final(self).games@[id as int].players@.len() == 0,
            has_open_game(final(self).games@, guild_id),
            open_game_index(final(self).games@, guild_id) == id,
    {
        let id = self.games.len() as u64;
        let rec = GameRecord {
            game: Game {
                game_id: id,
                guild_id,
                created_by: creator_user_id,
                status: GameStatus::Signup,
                day_phase: true,
                day_number: 0,
                created_at: now,
                ended_at: None,
            },
            players: Vec::new(),
        };
        self.games.push(rec);
        proof {
            let gs = self.games@;
            let pre = old(self).games@;
            assert(gs[id as int].game.guild_id == guild_id && is_open_status(
                gs[id as int].game.status,
            ));
            assert(at_most_one_open(gs)) by {
                assert forall|i: int, j: int|
                    0 <= i < j < gs.len() && gs[i].game.guild_id == gs[j].game.guild_id implies !(
                is_open_status(gs[i].game.status) && is_open_status(gs[j].game.status)) by {
                    if j < id {
                        assert(gs[i] == pre[i] && gs[j] == pre[j]);
                    } else {
                        assert(j == id);
                        if is_open_status(gs[i].game.status) && gs[i].game.guild_id == guild_id {
                            assert(has_open_game(pre, guild_id));
                        }
                    }
                }
            }
            self.lemma_open_index(guild_id, id as int);
        }
        id
    }

    /// Position of the game with the given id; ids equal positions.
    pub(crate) fn game_index(&self, game_id: u64) -> (idx: usize)
        requires
            game_id < self.games@.len(),
        ensures
            idx as u64 == game_id,
            idx < self.games@.len(),
    {
        let n = self.games.len();
        proof {
            assert(game_id < n as u64);
        }
        game_id as usize
    }

    /// Add a user to a game's player list, alive and with no vote. The
    /// caller rules out duplicate membership.
    pub fn insert_player(&mut self, game_id: u64, user_id: u64)
        requires
            old(self).wf(),
            game_id < old(self).games@.len(),
            !has_player(old(self).games@[game_id as int].players@, user_id),
        ensures
            final(self).wf(),
            final(self).configs == old(self).configs,
            final(self).games@.len() == old(self).games@.len(),
            forall|i: int|
                0 <= i < old(self).games@.len() && i != game_id ==> final(self).games@[i] == old(
                    self,
                ).games@[i],
            final(self).games@[game_id as int].game == old(self).games@[game_id as int].game,
            final(self).games@[game_id as int].players@ == old(self).games@[
                game_id as int
            ].players@.push(Player { user_id, role_id: None, is_alive: true, votes_for: None }),
    {
        let idx = self.game_index(game_id);
        let ghost pre = self.games@;
        let mut rec = self.games.remove(idx);
        rec.players.push(Player { user_id, role_id: None, is_alive: true, votes_for: None });
        self.games.insert(idx, rec);
        proof {
            let post = self.games@;
            let id = game_id as int;
            assert(post =~= pre.update(id, post[id]));
            lemma_players_wf_push_new(pre[id].players@, user_id);
            lemma_games_wf_update(pre, id, post[id]);
        }
    }

    /// Remove a user's player row from a game.
    pub fn delete_player(&mut self, game_id: u64, user_id: u64)
        requires
            old(self).wf(),
            game_id < old(self).games@.len(),
            has_player(old(self).games@[game_id as int].players@, user_id),
        ensures
            final(self).wf(),
            final(self).configs == old(self).configs,
            final(self).games@.len() == old(self).games@.len(),
            forall|i: int|
                0 <= i < old(self).games@.len() && i != game_id ==> final(self).games@[i] == old(
                    self,
                ).games@[i],
            final(self).games@[game_id as int].game == old(self).games@[game_id as int].game,
            final(self).games@[game_id as int].players@ == old(self).games@[
                game_id as int
            ].players@.remove(
                player_index(old(self).games@[game_id as int].players@, user_id),
            ),
    {
        let idx = self.game_index(game_id);
        let ghost pre = self.games@;
        let mut rec = self.games.remove(idx);
        match find_player(&rec.players, user_id) {
            Some(pi) => {
                proof {
                    lemma_player_index_unique(rec.players@, user_id, pi as int);
                }
                rec.players.remove(pi);
            },
            None => {
                proof {
                    assert(false);
                }
            },
        }
        self.games.insert(idx, rec);
        proof {
            let post = self.games@;
            let id = game_id as int;
            assert(post =~= pre.update(id, post[id]));
            lemma_players_wf_remove(pre[id].players@, player_index(pre[id].players@, user_id));
            lemma_games_wf_update(pre, id, post[id]);
        }
    }

    /// Record, replace or clear one voter's vote target. A target, when
    /// present, is never the voter themselves.
    pub fn set_vote(&mut self, game_id: u64, voter_id: u64, target: Option<u64>)
        requires
            old(self).wf(),
            game_id < old(self).games@.len(),
            has_player(old(self).games@[game_id as int].players@, voter_id),
            target matches Some(t) ==> t != voter_id,
        ensures
            final(self).wf(),
            final(self).configs == old(self).configs,
            final(self).games@.len() == old(self).games@.len(),
            forall|i: int|
                0 <= i < old(self).games@.len() && i != game_id ==> final(self).games@[i] == old(
                    self,
                ).games@[i],
            final(self).games@[game_id as int].game == old(self).games@[game_id as int].game,
            final(self).games@[game_id as int].players@ == old(self).games@[
                game_id as int
            ].players@.update(
                player_index(old(self).games@[game_id as int].players@, voter_id),
                Player {
                    votes_for: target,
                    ..old(self).games@[game_id as int].players@[player_index(
                        old(self).games@[game_id as int].players@,
                        voter_id,
                    )]
                },
            ),
    {
        let idx = self.game_index(game_id);
        let ghost pre = self.games@;
        let mut rec = self.games.remove(idx);
        match find_player(&rec.players, voter_id) {
            Some(pi) => {
                proof {
                    lemma_player_index_unique(rec.players@, voter_id, pi as int);
                }
                let p = rec.players[pi];
                rec.players.set(pi, Player { votes_for: target, ..p });
            },
            None => {
                proof {
                    assert(false);
                }
            },
        }
        self.games.insert(idx, rec);
        proof {
            let post = self.games@;
            let id = game_id as int;
            assert(post =~= pre.update(id, post[id]));
            lemma_players_wf_set_vote(
                pre[id].players@,
                player_index(pre[id].players@, voter_id),
                target,
            );
            lemma_games_wf_update(pre, id, post[id]);
        }
    }

    /// The single conditional update behind a phase advance. It applies
    /// only while the game is `Active` and its day phase still equals
    /// `expected_day_phase`; it then replaces phase and day number and, on
    /// the day-to-night edge, clears all votes of the game, all as one
    /// unit. When it does not apply — a concurrent advance already moved
    /// the game on — nothing changes and `false` is returned; losing this
    /// race is not an error.
    pub fn transition_phase(
        &mut self,
        game_id: u64,
        expected_day_phase: bool,
        new_day_phase: bool,
        new_day_number: u64,
    ) -> (applied: bool)
        requires
            old(self).wf(),
            game_id < old(self).games@.len(),
        ensures
            final(self).wf(),
            applied == transition_applies(old(self).games@, game_id as int, expected_day_phase),
            !applied ==> *final(self) == *old(self),
            applied ==> phase_updated(
                old(self).games@,
                final(self).games@,
                game_id as int,
                new_day_phase,
                new_day_number,
                expected_day_phase,
            ) && final(self).configs == old(self).configs,
    {
        let idx = self.game_index(game_id);
        let applies = {
            let rec = &self.games[idx];
            matches!(rec.game.status, GameStatus::Active) && rec.game.day_phase
                == expected_day_phase
        };
        if !applies {
            return false;
        }
        let ghost pre = self.games@;
        let mut rec = self.games.remove(idx);
        rec.game = Game { day_phase: new_day_phase, day_number: new_day_number, ..rec.game };
        if expected_day_phase {
            rec.players = clear_votes(&rec.players);
        }
        self.games.insert(idx, rec);
        proof {
            let post = self.games@;
            let id = game_id as int;
            assert(post =~= pre.update(id, post[id]));
            if expected_day_phase {
                lemma_players_wf_clear(pre[id].players@);
            }
            lemma_games_wf_update(pre, id, post[id]);
        }
        true
    }

    /// Move a game forward in its lifecycle: transitions are monotonic
    /// and never lead back out of `Ended`. Entering `Active` begins day
    /// one; entering `Ended` records `end_time` as `ended_at`, exactly
    /// once (`end_time` plays no role for any other status).
    pub fn set_game_status(&mut self, game_id: u64, new_status: GameStatus, end_time: u64)
        requires
            old(self).wf(),
            game_id < old(self).games@.len(),
            new_status.rank() > old(self).games@[game_id as int].game.status.rank(),
        ensures
            final(self).wf(),
            final(self).configs == old(self).configs,
            final(self).games@.len() == old(self).games@.len(),
            forall|i: int|
                0 <= i < old(self).games@.len() && i != game_id ==> final(self).games@[i] == old(
                    self,
                ).games@[i],
            final(self).games@[game_id as int].players@ == old(self).games@[
                game_id as int
            ].players@,
            final(self).games@[game_id as int].game == (Game {
                status: new_status,
                day_number: if new_status == GameStatus::Active {
                    1
                } else {
                    old(self).games@[game_id as int].game.day_number
                },
                ended_at: if new_status == GameStatus::Ended {
                    Some(end_time)
                } else {
                    old(self).games@[game_id as int].game.ended_at
                },
                ..old(self).games@[game_id as int].game
            }),
    {
        let idx = self.game_index(game_id);
        let ghost pre = self.games@;
        let mut rec = self.games.remove(idx);
        let day_number = if matches!(new_status, GameStatus::Active) {
            1
        } else {
            rec.game.day_number
        };
        let ended_at = if matches!(new_status, GameStatus::Ended) {
            Some(end_time)
        } else {
            rec.game.ended_at
        };
        rec.game = Game { status: new_status, day_number, ended_at, ..rec.game };
        self.games.insert(idx, rec);
        proof {
            let post = self.games@;
            let id = game_id as int;
            assert(post =~= pre.update(id, post[id]));
            lemma_games_wf_update(pre, id, post[id]);
        }
    }

    /// Index of the guild's configuration row, if one exists.
    fn find_config(&self, guild_id: u64) -> (r: Option<usize>)
        ensures
            match r {
                Some(i) => i < self.configs@.len() && self.configs@[i as int].guild_id == guild_id,
                None => !has_config(self.configs@, guild_id),
            },
    {
        let n = self.configs.len();
        let mut i: usize = 0;
        while i < n
            invariant
                n == self.configs@.len(),
                i <= n,
                forall|j: int| 0 <= j < i ==> self.configs@[j].guild_id != guild_id,
            decreases n - i,
        {
            if self.configs[i].guild_id == guild_id {
                return Some(i);
            }
            i = i + 1;
        }
        None
    }

    /// With unique guild rows, any index holding the guild is the one
    /// `config_index` denotes.
    pub proof fn lemma_config_index(self, guild_id: u64, i: int)
        requires
            self.wf(),
            0 <= i < self.configs@.len(),
            self.configs@[i].guild_id == guild_id,
        ensures
            config_index(self.configs@, guild_id) == i,
            has_config(self.configs@, guild_id),
    {
        assert(has_config(self.configs@, guild_id));
        let j = config_index(self.configs@, guild_id);
        if i != j {
            if i < j {
                assert(self.configs@[i].guild_id != self.configs@[j].guild_id);
            } else {
                assert(self.configs@[j].guild_id != self.configs@[i].guild_id);
            }
        }
    }

    /// Insert the guild's configuration row or replace the existing one.
    pub fn upsert_config(&mut self, config: ServerConfig)
        requires
            old(self).wf(),
        ensures
            final(self).wf(),
            final(self).games == old(self).games,
            has_config(final(self).configs@, config.guild_id),
            config_at(final(self).configs@, config.guild_id) == config,
            forall|g: u64|
                g != config.guild_id ==> has_config(final(self).configs@, g) == has_config(
                    old(self).configs@,
                    g,
                ),
            forall|g: u64|
                g != config.guild_id && #[trigger] has_config(final(self).configs@, g)
                    ==> config_at(final(self).configs@, g) == config_at(old(self).configs@, g),
    {
        let ghost pre = *self;
        let guild_id = config.guild_id;
        match self.find_config(guild_id) {
            Some(i) => {
                proof {
                    pre.lemma_config_index(guild_id, i as int);
                }
                self.configs.set(i, config);
                proof {
                    self.lemma_config_index(guild_id, i as int);
                    assert forall|g: u64|
                        g != guild_id && #[trigger] has_config(self.configs@, g) implies has_config(
                        pre.configs@,
                        g,
                    ) && config_at(self.configs@, g) == config_at(pre.configs@, g) by {
                        let j = choose|j: int|
                            0 <= j < self.configs@.len() && self.configs@[j].guild_id == g;
                        assert(j != i);
                        assert(pre.configs@[j].guild_id == g);
                        pre.lemma_config_index(g, j);
                        self.lemma_config_index(g, j);
                    }
                    assert forall|g: u64|
                        g != guild_id && #[trigger] has_config(pre.configs@, g) implies has_config(
                        self.configs@,
                        g,
                    ) by {
                        let j = choose|j: int|
                            0 <= j < pre.configs@.len() && pre.configs@[j].guild_id == g;
                        assert(self.configs@[j].guild_id == g);
                    }
                }
            },
            None => {
                self.configs.push(config);
                proof {
                    assert(self.configs@[self.configs@.len() - 1].guild_id == guild_id);
                    self.lemma_config_index(guild_id, self.configs@.len() - 1);
                    assert forall|g: u64|
                        g != guild_id && #[trigger] has_config(self.configs@, g) implies has_config(
                        pre.configs@,
                        g,
                    ) && config_at(self.configs@, g) == config_at(pre.configs@, g) by {
                        let j = choose|j: int|
                            0 <= j < self.configs@.len() && self.configs@[j].guild_id == g;
                        assert(j < self.configs@.len() - 1);
                        assert(pre.configs@[j].guild_id == g);
                        pre.lemma_config_index(g, j);
                        self.lemma_config_index(g, j);
                    }
                    assert forall|g: u64|
                        g != guild_id && #[trigger] has_config(pre.configs@, g) implies has_config(
                        self.configs@,
                        g,
                    ) by {
                        let j = choose|j: int|
                            0 <= j < pre.configs@.len() && pre.configs@[j].guild_id == g;
                        assert(self.configs@[j].guild_id == g);
                    }
                }
            },
        }
    }

    /// The guild's configuration row, if one exists.
    pub fn load_config(&self, guild_id: u64) -> (r: Option<ServerConfig>)
        requires
            self.wf(),
        ensures
            match r {
                Some(c) => has_config(self.configs@, guild_id) && c == config_at(
                    self.configs@,
                    guild_id,
                ),
                None => !has_config(self.configs@, guild_id),
            },
    {
        match self.find_config(guild_id) {
            Some(i) => {
                proof {
                    self.lemma_config_index(guild_id, i as int);
                }
                Some(self.configs[i].duplicate())
            },
            None => None,
        }
    }
}

/// Every vote of the list cleared, element for element.
fn clear_votes(players: &Vec<Player>) -> (r: Vec<Player>)
    ensures
        r@ == clear_votes_seq(players@),
{
    let n = players.len();
    let mut out: Vec<Player> = Vec::new();
    let mut i: usize = 0;
    while i < n
        invariant
            n == players@.len(),
            i <= n,
            out@.len() == i,
            forall|j: int| 0 <= j < i ==> out@[j] == (Player {
                votes_for: None,
                ..players@[j]
            }),
        decreases n - i,
    {
        let p = players[i];
        out.push(Player { votes_for: None, ..p });
        i = i + 1;
    }
    proof {
        assert(out@ =~= clear_votes_seq(players@));
    }
    out
}

/// Appending a fresh, voteless, alive player keeps a player list well
/// formed.
proof fn lemma_players_wf_push_new(ps: Seq<Player>, user_id: u64)
    requires
        players_wf(ps),
        !has_player(ps, user_id),
    ensures
        players_wf(ps.push(Player { user_id, role_id: None, is_alive: true, votes_for: None })),
{
    let p = Player { user_id, role_id: None, is_alive: true, votes_for: None };
    let post = ps.push(p);
    assert forall|i: int, j: int|
        0 <= i < j < post.len() implies post[i].user_id != post[j].user_id by {
        if j < ps.len() {
        } else {
            assert(post[i] == ps[i]);
            assert(has_player(ps, ps[i].user_id));
        }
    }
}

/// Removing a player keeps a player list well formed.
proof fn lemma_players_wf_remove(ps: Seq<Player>, k: int)
    requires
        players_wf(ps),
        0 <= k < ps.len(),
    ensures
        players_wf(ps.remove(k)),
{
    let post = ps.remove(k);
    assert forall|i: int, j: int|
        0 <= i < j < post.len() implies post[i].user_id != post[j].user_id by {
        let oi: int = if i < k {
            i
        } else {
            i + 1
        };
        let oj: int = if j < k {
            j
        } else {
            j + 1
        };
        assert(post[i] == ps[oi] && post[j] == ps[oj]);
    }
    assert forall|i: int| 0 <= i < post.len() implies post[i].votes_for != Some(
        post[i].user_id,
    ) by {
        let oi: int = if i < k {
            i
        } else {
            i + 1
        };
        assert(post[i] == ps[oi]);
    }
}

/// Replacing one player's vote with a target other than themselves keeps
/// a player list well formed.
proof fn lemma_players_wf_set_vote(ps: Seq<Player>, k: int, target: Option<u64>)
    requires
        players_wf(ps),
        0 <= k < ps.len(),
        target matches Some(t) ==> t != ps[k].user_id,
    ensures
        players_wf(ps.update(k, Player { votes_for: target, ..ps[k] })),
{
}

/// Clearing all votes keeps a player list well formed.
proof fn lemma_players_wf_clear(ps: Seq<Player>)
    requires
        players_wf(ps),
    ensures
        players_wf(clear_votes_seq(ps)),
{
}

/// A record update preserves the game-table invariants provided the row
/// keeps its identity, its players stay well formed, `ended_at` stays in
/// step with the status, and the update never reopens a closed game.
proof fn lemma_games_wf_update(pre: Seq<GameRecord>, id: int, rec2: GameRecord)
    requires
        games_wf(pre),
        0 <= id < pre.len(),
        rec2.game.game_id == pre[id].game.game_id,
        rec2.game.guild_id == pre[id].game.guild_id,
        players_wf(rec2.players@),
        (rec2.game.status == GameStatus::Ended) <==> rec2.game.ended_at is Some,
        is_open_status(rec2.game.status) ==> is_open_status(pre[id].game.status),
    ensures
        games_wf(pre.update(id, rec2)),
{
    let post = pre.update(id, rec2);
    assert forall|i: int, j: int|
        0 <= i < j < post.len() && post[i].game.guild_id == post[j].game.guild_id implies !(
    is_open_status(post[i].game.status) && is_open_status(post[j].game.status)) by {
        if is_open_status(post[i].game.status) && is_open_status(post[j].game.status) {
            assert(is_open_status(pre[i].game.status) && is_open_status(pre[j].game.status));
            assert(pre[i].game.guild_id == pre[j].game.guild_id);
        }
    }
}

} // verus!
