//! The store's conditional phase update under simulated races, and the
//! deterministic roster ordering.

use werewolf_core::engine::SessionManager;
use werewolf_core::state::{roster_by_id, Player};

fn started_game(guild: u64) -> (SessionManager, u64) {
    let mut m = SessionManager::new();
    let game_id = m.create_game(guild, 900, 0).expect("create");
    for u in 1..=3u64 {
        m.join_game(game_id, u).expect("join");
    }
    m.start_game(game_id).expect("start");
    (m, game_id)
}

#[test]
fn racing_day_advances_apply_exactly_once() {
    let (mut m, game_id) = started_game(1);
    m.cast_vote(game_id, 1, 2).expect("vote");
    // Two concurrent advances both observed the day phase; each issues the
    // conditional update expecting it. Exactly one applies; the loser
    // changes nothing.
    let first = m.store.transition_phase(game_id, true, false, 1);
    let second = m.store.transition_phase(game_id, true, false, 1);
    assert!(first);
    assert!(!second);
    let rec = &m.store.games[game_id as usize];
    assert!(!rec.game.day_phase);
    assert_eq!(rec.game.day_number, 1);
    // Votes were cleared exactly once, on the applied day-to-night edge.
    assert!(rec.players.iter().all(|p| p.votes_for.is_none()));
}

#[test]
fn racing_night_advances_increment_the_day_once() {
    let (mut m, game_id) = started_game(1);
    m.store.transition_phase(game_id, true, false, 1);
    let first = m.store.transition_phase(game_id, false, true, 2);
    let second = m.store.transition_phase(game_id, false, true, 3);
    assert!(first);
    assert!(!second);
    let rec = &m.store.games[game_id as usize];
    assert!(rec.game.day_phase);
    assert_eq!(rec.game.day_number, 2);
}

#[test]
fn transition_does_not_apply_outside_active_games() {
    let mut m = SessionManager::new();
    let game_id = m.create_game(1, 900, 0).expect("create");
    // Still in signup: the conditional update must refuse and leave the
    // game untouched.
    assert!(!m.store.transition_phase(game_id, true, false, 1));
    let rec = &m.store.games[game_id as usize];
    assert!(rec.game.day_phase);
    assert_eq!(rec.game.day_number, 0);
}

#[test]
fn roster_orders_players_by_ascending_id() {
    let players = vec![
        Player { user_id: 30, role_id: None, is_alive: true, votes_for: None },
        Player { user_id: 10, role_id: None, is_alive: false, votes_for: Some(30) },
        Player { user_id: 20, role_id: None, is_alive: true, votes_for: None },
    ];
    let roster = roster_by_id(&players);
    let ids: Vec<u64> = roster.iter().map(|p| p.user_id).collect();
    assert_eq!(ids, vec![10, 20, 30]);
    // The entries themselves are preserved, not just the ids.
    assert_eq!(roster[0].votes_for, Some(30));
    assert!(!roster[0].is_alive);
}
