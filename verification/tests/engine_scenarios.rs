//! End-to-end scenarios through the session manager.

use werewolf_core::engine::{GameError, SessionManager, MIN_PLAYERS};
use werewolf_core::state::{GameStatus, ServerConfig};
use werewolf_core::tally::TallyEntry;

#[test]
fn create_join_start_reaches_day_one() {
    let mut m = SessionManager::new();
    let game_id = m.create_game(42, 900, 10).expect("create");
    m.join_game(game_id, 1).expect("join 1");
    m.join_game(game_id, 2).expect("join 2");
    m.join_game(game_id, 3).expect("join 3");
    m.start_game(game_id).expect("start");

    let g = m.get_active_game(42, 11).expect("active game");
    assert!(matches!(g.status, GameStatus::Active));
    assert_eq!(g.day_number, 1);
    assert!(g.day_phase);
    assert_eq!(g.players.len(), 3);
}

#[test]
fn day_votes_tally_then_night() {
    let mut m = SessionManager::new();
    let game_id = m.create_game(42, 900, 10).expect("create");
    m.join_game(game_id, 1).expect("join 1");
    m.join_game(game_id, 2).expect("join 2");
    m.join_game(game_id, 3).expect("join 3");
    m.start_game(game_id).expect("start");

    m.cast_vote(game_id, 1, 2).expect("vote 1 -> 2");
    m.cast_vote(game_id, 3, 2).expect("vote 3 -> 2");

    let res = m.advance_phase(game_id).expect("advance to night");
    assert_eq!(
        res.elimination_ranking,
        vec![TallyEntry { target: 2, votes: 2 }]
    );
    assert!(!res.new_day_phase);
    assert_eq!(res.new_day_number, 1);

    let g = m.get_active_game(42, 12).expect("active game");
    assert!(!g.day_phase);
    assert_eq!(g.day_number, 1);
    for p in &g.players {
        assert!(p.votes_for.is_none(), "votes must be cleared at nightfall");
    }
}

#[test]
fn second_advance_brings_day_two() {
    let mut m = SessionManager::new();
    let game_id = m.create_game(42, 900, 10).expect("create");
    m.join_game(game_id, 1).expect("join 1");
    m.join_game(game_id, 2).expect("join 2");
    m.join_game(game_id, 3).expect("join 3");
    m.start_game(game_id).expect("start");
    m.advance_phase(game_id).expect("to night");

    let res = m.advance_phase(game_id).expect("to day two");
    assert!(res.new_day_phase);
    assert_eq!(res.new_day_number, 2);
    assert!(res.elimination_ranking.is_empty());

    let g = m.get_active_game(42, 13).expect("active game");
    assert!(g.day_phase);
    assert_eq!(g.day_number, 2);
}

#[test]
fn start_with_two_players_is_refused() {
    let mut m = SessionManager::new();
    let game_id = m.create_game(7, 900, 0).expect("create");
    m.join_game(game_id, 1).expect("join 1");
    m.join_game(game_id, 2).expect("join 2");
    assert!(2 < MIN_PLAYERS);
    assert_eq!(m.start_game(game_id), Err(GameError::InsufficientPlayers));

    let g = m.get_active_game(7, 1).expect("game still there");
    assert!(matches!(g.status, GameStatus::Signup));
    assert_eq!(g.day_number, 0);
}

#[test]
fn second_game_per_guild_conflicts_until_the_first_ends() {
    let mut m = SessionManager::new();
    let first = m.create_game(5, 900, 0).expect("create first");
    assert_eq!(m.create_game(5, 901, 1), Err(GameError::Conflict));
    // A different guild is unaffected.
    m.create_game(6, 901, 1).expect("other guild");
    m.end_game(first, 2).expect("end first");
    m.create_game(5, 901, 3).expect("create after end");
}

#[test]
fn join_and_leave_errors() {
    let mut m = SessionManager::new();
    let game_id = m.create_game(1, 900, 0).expect("create");
    m.join_game(game_id, 10).expect("join");
    assert_eq!(m.join_game(game_id, 10), Err(GameError::AlreadyJoined));
    assert_eq!(m.join_game(99, 10), Err(GameError::InvalidState));
    assert_eq!(m.leave_game(game_id, 11), Err(GameError::NotAPlayer));
    m.leave_game(game_id, 10).expect("leave");
    assert_eq!(m.leave_game(game_id, 10), Err(GameError::NotAPlayer));
}

#[test]
fn joining_is_only_possible_during_signup() {
    let mut m = SessionManager::new();
    let game_id = m.create_game(1, 900, 0).expect("create");
    m.join_game(game_id, 1).expect("join 1");
    m.join_game(game_id, 2).expect("join 2");
    m.join_game(game_id, 3).expect("join 3");
    m.start_game(game_id).expect("start");
    assert_eq!(m.join_game(game_id, 4), Err(GameError::InvalidState));
    // Leaving an active game is allowed.
    m.leave_game(game_id, 3).expect("leave while active");
}

#[test]
fn start_and_end_state_errors() {
    let mut m = SessionManager::new();
    let game_id = m.create_game(1, 900, 0).expect("create");
    for u in 1..=3u64 {
        m.join_game(game_id, u).expect("join");
    }
    m.start_game(game_id).expect("start");
    assert_eq!(m.start_game(game_id), Err(GameError::InvalidState));
    assert_eq!(m.start_game(44), Err(GameError::InvalidState));
    m.end_game(game_id, 50).expect("end");
    assert_eq!(m.end_game(game_id, 51), Err(GameError::InvalidState));
    assert_eq!(m.end_game(44, 51), Err(GameError::InvalidState));
}

#[test]
fn ended_game_records_end_time_once() {
    let mut m = SessionManager::new();
    let game_id = m.create_game(1, 900, 0).expect("create");
    m.end_game(game_id, 123).expect("end");
    let rec = &m.store.games[game_id as usize];
    assert!(matches!(rec.game.status, GameStatus::Ended));
    assert_eq!(rec.game.ended_at, Some(123));
    assert!(m.get_active_game(1, 124).is_none());
}

#[test]
fn voting_errors_cover_every_precondition() {
    let mut m = SessionManager::new();
    let game_id = m.create_game(1, 900, 0).expect("create");
    for u in 1..=3u64 {
        m.join_game(game_id, u).expect("join");
    }
    // Not started yet: no voting.
    assert_eq!(m.cast_vote(game_id, 1, 2), Err(GameError::InvalidState));
    m.start_game(game_id).expect("start");

    assert_eq!(m.cast_vote(77, 1, 2), Err(GameError::InvalidState));
    assert_eq!(m.cast_vote(game_id, 9, 2), Err(GameError::NotAPlayer));
    assert_eq!(m.cast_vote(game_id, 1, 1), Err(GameError::SelfVote));
    assert_eq!(m.cast_vote(game_id, 1, 9), Err(GameError::UnknownPlayer));
    m.cast_vote(game_id, 1, 2).expect("valid vote");

    // At night there is no voting.
    m.advance_phase(game_id).expect("to night");
    assert_eq!(m.cast_vote(game_id, 1, 2), Err(GameError::InvalidState));
}

#[test]
fn dead_players_cannot_vote() {
    let mut m = SessionManager::new();
    let game_id = m.create_game(1, 900, 0).expect("create");
    for u in 1..=3u64 {
        m.join_game(game_id, u).expect("join");
    }
    m.start_game(game_id).expect("start");
    // Elimination is the surrounding rules layer's job; mark a player dead
    // directly in the store, as that layer would.
    m.store.games[game_id as usize].players[0].is_alive = false;
    m.cache.invalidate_game(1);
    assert_eq!(m.cast_vote(game_id, 1, 2), Err(GameError::DeadPlayer));
}

#[test]
fn retract_without_vote_fails_and_cast_retract_cast_is_cast() {
    let mut m = SessionManager::new();
    let game_id = m.create_game(1, 900, 0).expect("create");
    for u in 1..=3u64 {
        m.join_game(game_id, u).expect("join");
    }
    m.start_game(game_id).expect("start");

    assert_eq!(m.retract_vote(game_id, 1), Err(GameError::NoVote));
    assert_eq!(m.retract_vote(game_id, 9), Err(GameError::NotAPlayer));
    assert_eq!(m.retract_vote(55, 1), Err(GameError::InvalidState));

    // Cast once in a sibling game set up the same way.
    let mut once = SessionManager::new();
    let g2 = once.create_game(1, 900, 0).expect("create");
    for u in 1..=3u64 {
        once.join_game(g2, u).expect("join");
    }
    once.start_game(g2).expect("start");
    once.cast_vote(g2, 1, 2).expect("vote");

    // Cast, retract, cast again here.
    m.cast_vote(game_id, 1, 2).expect("vote");
    m.retract_vote(game_id, 1).expect("retract");
    assert_eq!(m.retract_vote(game_id, 1), Err(GameError::NoVote));
    m.cast_vote(game_id, 1, 2).expect("vote again");

    let a = m.get_active_game(1, 5).expect("game");
    let b = once.get_active_game(1, 5).expect("game");
    for (pa, pb) in a.players.iter().zip(b.players.iter()) {
        assert_eq!(pa.user_id, pb.user_id);
        assert_eq!(pa.votes_for, pb.votes_for);
        assert_eq!(pa.is_alive, pb.is_alive);
    }
    assert_eq!(m.get_vote_tally(game_id).unwrap(), once.get_vote_tally(g2).unwrap());
}

#[test]
fn newer_vote_overwrites_older_one() {
    let mut m = SessionManager::new();
    let game_id = m.create_game(1, 900, 0).expect("create");
    for u in 1..=3u64 {
        m.join_game(game_id, u).expect("join");
    }
    m.start_game(game_id).expect("start");
    m.cast_vote(game_id, 1, 2).expect("vote 2");
    m.cast_vote(game_id, 1, 3).expect("revote 3");
    let tally = m.get_vote_tally(game_id).unwrap();
    assert_eq!(tally, vec![TallyEntry { target: 3, votes: 1 }]);
}

#[test]
fn a_departed_target_drops_out_of_the_tally() {
    let mut m = SessionManager::new();
    let game_id = m.create_game(1, 900, 0).expect("create");
    for u in 1..=4u64 {
        m.join_game(game_id, u).expect("join");
    }
    m.start_game(game_id).expect("start");
    m.cast_vote(game_id, 1, 2).expect("vote 1 -> 2");
    m.cast_vote(game_id, 3, 4).expect("vote 3 -> 4");
    // Player 2 leaves mid-game; the vote against them is not adjusted,
    // but a target that is no longer a player cannot be ranked.
    m.leave_game(game_id, 2).expect("leave");
    let tally = m.get_vote_tally(game_id).unwrap();
    assert_eq!(tally, vec![TallyEntry { target: 4, votes: 1 }]);
    // Player 1's stale vote still stands in their row.
    let g = m.get_active_game(1, 5).expect("game");
    let p1 = g.players.iter().find(|p| p.user_id == 1).unwrap();
    assert_eq!(p1.votes_for, Some(2));
}

#[test]
fn tally_is_refused_outside_active_games() {
    let mut m = SessionManager::new();
    let game_id = m.create_game(1, 900, 0).expect("create");
    assert_eq!(m.get_vote_tally(game_id), Err(GameError::InvalidState));
    assert_eq!(m.get_vote_tally(70), Err(GameError::InvalidState));
}

#[test]
fn server_config_roundtrip_and_overwrite() {
    let mut m = SessionManager::new();
    assert!(m.get_server_config(9, 0).is_none());
    m.upsert_server_config(
        ServerConfig { guild_id: 9, prefix: "Wolf.".to_string(), starting_number: 1 },
        0,
    );
    let c = m.get_server_config(9, 1).expect("config");
    assert_eq!(c.prefix, "Wolf.");
    assert_eq!(c.starting_number, 1);
    m.upsert_server_config(
        ServerConfig { guild_id: 9, prefix: "w!".to_string(), starting_number: 4 },
        2,
    );
    let c = m.get_server_config(9, 3).expect("config");
    assert_eq!(c.prefix, "w!");
    assert_eq!(c.starting_number, 4);
    assert!(m.get_server_config(10, 3).is_none());
}
