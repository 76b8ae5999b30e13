//! Data model: game rows, players, aggregate game state and per-guild
//! configuration, together with their well-formedness predicates.

use vstd::prelude::*;
use vstd::multiset::Multiset;
use vstd::seq_lib::group_to_multiset_ensures;

verus! {

/// Lifecycle of a game. Transitions are monotonic: a game only ever moves
/// forward through `Setup`, `Signup`, `Active`, `Ended`, never backward.
#[derive(Clone, Copy, Debug, PartialEq, Eq, Structural)]
pub enum GameStatus {
    Setup,
    Signup,
    Active,
    Ended,
}

impl GameStatus {
    /// Position of a status in the lifecycle; later statuses rank higher.
    pub open spec fn rank(self) -> int {
        match self {
            GameStatus::Setup => 0,
            GameStatus::Signup => 1,
            GameStatus::Active => 2,
            GameStatus::Ended => 3,
        }
    }
}

/// A status is terminal exactly when the game has ended.
pub open spec fn is_open_status(s: GameStatus) -> bool {
    s != GameStatus::Ended
}

/// Membership of a user in a game. `votes_for` is the single authoritative
/// record of the player's current vote target, or `None` when no vote stands.
#[derive(Clone, Copy, Debug)]
pub struct Player {
    pub user_id: u64,
    pub role_id: Option<i32>,
    pub is_alive: bool,
    pub votes_for: Option<u64>,
}

/// One game row: identity, guild scope, lifecycle and day/night position.
/// `day_phase` is true during the day, false at night. `ended_at` is set
/// exactly once, on the transition to `Ended`.
#[derive(Clone, Copy, Debug)]
pub struct Game {
    pub game_id: u64,
    pub guild_id: u64,
    pub created_by: u64,
    pub status: GameStatus,
    pub day_phase: bool,
    pub day_number: u64,
    pub created_at: u64,
    pub ended_at: Option<u64>,
}

/// Aggregate snapshot of a game as served to callers: the row fields plus
/// the full player list. `duplicate` makes an exact copy.
#[derive(Debug)]
pub struct GameState {
    pub game_id: u64,
    pub guild_id: u64,
    pub status: GameStatus,
    pub players: Vec<Player>,
    pub day_phase: bool,
    pub day_number: u64,
}

/// Mathematical value of a [`GameState`]: the same fields with the player
/// list abstracted to a sequence.
pub struct GameStateView {
    pub game_id: u64,
    pub guild_id: u64,
    pub status: GameStatus,
    pub players: Seq<Player>,
    pub day_phase: bool,
    pub day_number: u64,
}

impl View for GameState {
    type V = GameStateView;

    open spec fn view(&self) -> GameStateView {
        GameStateView {
            game_id: self.game_id,
            guild_id: self.guild_id,
            status: self.status,
            players: self.players@,
            day_phase: self.day_phase,
            day_number: self.day_number,
        }
    }
}

/// Per-guild configuration. Changes rarely, so it is cached with a longer
/// time-to-live than game state. `duplicate` makes an exact copy.
#[derive(Debug)]
pub struct ServerConfig {
    pub guild_id: u64,
    pub prefix: String,
    pub starting_number: i32,
}

impl ServerConfig {
    /// An exact copy: every field of the result equals the original.
    pub fn duplicate(&self) -> (r: ServerConfig)
        ensures
            r == *self,
    {
        ServerConfig {
            guild_id: self.guild_id,
            prefix: self.prefix.clone(),
            starting_number: self.starting_number,
        }
    }
}

/// No two players of one game share a user id.
pub open spec fn distinct_ids(ps: Seq<Player>) -> bool {
    forall|i: int, j: int|
        0 <= i < j < ps.len() ==> ps[i].user_id != ps[j].user_id
}

/// No player votes for themselves.
pub open spec fn no_self_votes(ps: Seq<Player>) -> bool {
    forall|i: int| 0 <= i < ps.len() ==> ps[i].votes_for != Some(ps[i].user_id)
}

/// Well-formed player list: unique membership and no self-votes.
pub open spec fn players_wf(ps: Seq<Player>) -> bool {
    distinct_ids(ps) && no_self_votes(ps)
}

/// Whether some player of the list has the given user id.
pub open spec fn has_player(ps: Seq<Player>, user_id: u64) -> bool {
    exists|i: int| 0 <= i < ps.len() && ps[i].user_id == user_id
}

/// Index of the player with the given user id; meaningful when
/// `has_player` holds and ids are distinct.
pub open spec fn player_index(ps: Seq<Player>, user_id: u64) -> int {
    choose|i: int| 0 <= i < ps.len() && ps[i].user_id == user_id
}

/// The player with the given user id.
pub open spec fn player_of(ps: Seq<Player>, user_id: u64) -> Player {
    ps[player_index(ps, user_id)]
}

/// With distinct ids, any index holding the user id is the one
/// `player_index` denotes.
pub proof fn lemma_player_index_unique(ps: Seq<Player>, user_id: u64, i: int)
    requires
        distinct_ids(ps),
        0 <= i < ps.len(),
        ps[i].user_id == user_id,
    ensures
        player_index(ps, user_id) == i,
{
    assert(has_player(ps, user_id));
    let j = player_index(ps, user_id);
    if i != j {
        if i < j {
            assert(ps[i].user_id != ps[j].user_id);
        } else {
            assert(ps[j].user_id != ps[i].user_id);
        }
    }
}

/// Find the index of the player with the given user id, if any.
pub fn find_player(players: &Vec<Player>, user_id: u64) -> (r: Option<usize>)
    ensures
        match r {
            Some(i) => i < players@.len() && players@[i as int].user_id == user_id,
            None => !has_player(players@, user_id),
        },
{
    let n = players.len();
    let mut i: usize = 0;
    while i < n
        invariant
            n == players@.len(),
            i <= n,
            forall|j: int| 0 <= j < i ==> players@[j].user_id != user_id,
        decreases n - i,
    {
        if players[i].user_id == user_id {
            return Some(i);
        }
        i = i + 1;
    }
    None
}

/// An element-for-element copy of a player list.
pub fn copy_players(players: &Vec<Player>) -> (r: Vec<Player>)
    ensures
        r@ == players@,
{
    let n = players.len();
    let mut out: Vec<Player> = Vec::new();
    let mut i: usize = 0;
    while i < n
        invariant
            n == players@.len(),
            i <= n,
            out@ == players@.take(i as int),
        decreases n - i,
    {
        out.push(players[i]);
        proof {
            assert(out@ =~= players@.take(i + 1 as int));
        }
        i = i + 1;
    }
    proof {
        assert(players@.take(n as int) =~= players@);
    }
    out
}

/// The sub-sequence of players currently alive, in list order.
pub open spec fn alive_seq(ps: Seq<Player>) -> Seq<Player> {
    ps.filter(|p: Player| p.is_alive)
}

/// `alive_seq` grows by exactly the appended player when that player is
/// alive, and is unchanged otherwise.
pub proof fn lemma_alive_seq_push(ps: Seq<Player>, p: Player)
    ensures
        alive_seq(ps.push(p)) == if p.is_alive {
            alive_seq(ps).push(p)
        } else {
            alive_seq(ps)
        },
{
    reveal(Seq::filter);
    assert(ps.push(p).drop_last() =~= ps);
    assert(ps.push(p).last() == p);
}

/// The players ordered by ascending user id: the same players, listed
/// deterministically for display.
pub fn roster_by_id(players: &Vec<Player>) -> (r: Vec<Player>)
    ensures
        r@.to_multiset() == players@.to_multiset(),
        forall|i: int, j: int| 0 <= i < j < r@.len() ==> r@[i].user_id <= r@[j].user_id,
{
    broadcast use group_to_multiset_ensures;
    broadcast use vstd::multiset::group_multiset_axioms;

    let ghost full = players@.to_multiset();
    let mut rem = copy_players(players);
    let mut out: Vec<Player> = Vec::new();
    while rem.len() > 0
        invariant
            out@.to_multiset().add(rem@.to_multiset()) == full,
            forall|i: int, j: int| 0 <= i < j < out@.len() ==> out@[i].user_id <= out@[j].user_id,
            forall|x: int, y: int|
                0 <= x < out@.len() && 0 <= y < rem@.len() ==> out@[x].user_id <= rem@[y].user_id,
        decreases rem.len(),
    {
        let mut m: usize = 0;
        let mut k: usize = 1;
        while k < rem.len()
            invariant
                rem@.len() > 0,
                m < k <= rem@.len(),
                forall|j: int| 0 <= j < k ==> rem@[m as int].user_id <= #[trigger] rem@[j].user_id,
            decreases rem@.len() - k,
        {
            if rem[k].user_id < rem[m].user_id {
                m = k;
            }
            k = k + 1;
        }
        let ghost old_rem = rem@;
        let ghost old_out = out@;
        let p = rem.remove(m);
        out.push(p);
        proof {
            old_out.to_multiset_ensures();
            old_rem.to_multiset_ensures();
            assert(old_rem[m as int] == p);
            assert(out@ == old_out.push(p));
            assert(rem@ == old_rem.remove(m as int));
            assert(out@.to_multiset() == old_out.to_multiset().insert(p));
            assert(rem@.to_multiset() == old_rem.to_multiset().remove(p));
            assert(old_rem.contains(p));
            assert(old_rem.to_multiset().count(p) > 0);
            assert(out@.to_multiset().add(rem@.to_multiset()) =~= full);
            assert forall|x: int, y: int|
                0 <= x < out@.len() && 0 <= y < rem@.len() implies out@[x].user_id <= rem@[y].user_id by {
                let oy: int = if y < m {
                    y
                } else {
                    y + 1
                };
                assert(rem@[y] == old_rem[oy]);
                if x < old_out.len() {
                    assert(old_out[x].user_id <= old_rem[oy].user_id);
                } else {
                    assert(out@[x] == p);
                    assert(old_rem[m as int].user_id <= old_rem[oy].user_id);
                }
            }
        }
    }
    proof {
        rem@.to_multiset_ensures();
        assert(rem@.to_multiset().len() == 0);
        assert(rem@.to_multiset() =~= Multiset::<Player>::empty());
        assert(out@.to_multiset() =~= full);
    }
    out
}

impl GameState {
    /// A game state is well formed when its player list is.
    pub open spec fn wf(self) -> bool {
        players_wf(self.players@)
    }

    /// An exact copy: the result views equal to the original.
    pub fn duplicate(&self) -> (r: GameState)
        ensures
            r@ == self@,
    {
        GameState {
            game_id: self.game_id,
            guild_id: self.guild_id,
            status: self.status,
            players: copy_players(&self.players),
            day_phase: self.day_phase,
            day_number: self.day_number,
        }
    }

    /// The players currently alive, in list order.
    pub fn alive_players(&self) -> (r: Vec<Player>)
        ensures
            r@ == alive_seq(self.players@),
    {
        let n = self.players.len();
        let mut out: Vec<Player> = Vec::new();
        let mut i: usize = 0;
        while i < n
            invariant
                n == self.players@.len(),
                i <= n,
                out@ == alive_seq(self.players@.take(i as int)),
            decreases n - i,
        {
            let p = self.players[i];
            proof {
                assert(self.players@.take(i as int).push(self.players@[i as int]) =~= self
                    .players@
                    .take(i + 1 as int));
                lemma_alive_seq_push(self.players@.take(i as int), self.players@[i as int]);
            }
            if p.is_alive {
                out.push(p);
            }
            i = i + 1;
        }
        proof {
            assert(self.players@.take(n as int) =~= self.players@);
        }
        out
    }

    /// The player at a one-based roster position, as used when a vote names
    /// a player by number rather than by id.
    pub fn player_by_number(&self, number: usize) -> (r: Option<Player>)
        ensures
            match r {
                Some(p) => 1 <= number <= self.players@.len() && p == self.players@[number - 1],
                None => !(1 <= number <= self.players@.len()),
            },
    {
        if number >= 1 && number <= self.players.len() {
            Some(self.players[number - 1])
        } else {
            None
        }
    }
}

} // verus!
