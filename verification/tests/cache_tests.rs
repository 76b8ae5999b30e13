//! Cache behaviour: time-to-live, invalidation, capacity, read-through.

use werewolf_core::cache::{GameCache, TtlCache, GAME_CACHE_TTL};
use werewolf_core::engine::SessionManager;
use werewolf_core::state::{GameState, GameStatus, ServerConfig};

fn sample_state(guild_id: u64) -> GameState {
    GameState {
        game_id: 0,
        guild_id,
        status: GameStatus::Signup,
        players: Vec::new(),
        day_phase: true,
        day_number: 0,
    }
}

#[test]
fn game_entries_expire_after_their_ttl() {
    let mut c = GameCache::new();
    c.set_game(1, sample_state(1), 1000);
    assert!(c.get_game(1, 1000).is_some());
    assert!(c.get_game(1, 1000 + GAME_CACHE_TTL - 1).is_some());
    // Expiry is absolute-age based: exactly at the ttl the entry is gone.
    assert!(c.get_game(1, 1000 + GAME_CACHE_TTL).is_none());
}

#[test]
fn invalidation_wins_over_remaining_ttl() {
    let mut c = GameCache::new();
    c.set_game(1, sample_state(1), 0);
    assert!(c.get_game(1, 1).is_some());
    c.invalidate_game(1);
    // Well inside the time-to-live, yet the value must not come back.
    assert!(c.get_game(1, 2).is_none());
}

#[test]
fn config_entries_live_longer_than_game_entries() {
    let mut c = GameCache::new();
    let cfg = ServerConfig { guild_id: 3, prefix: "w".to_string(), starting_number: 1 };
    c.set_server_config(3, cfg, 0);
    assert!(c.get_server_config(3, 1799).is_some());
    assert!(c.get_server_config(3, 1800).is_none());
}

#[test]
fn a_full_cache_evicts_exactly_one_entry() {
    let mut c: TtlCache<u64> = TtlCache::new(2, 100);
    c.insert(1, 11, 0);
    c.insert(2, 22, 1);
    c.insert(3, 33, 2);
    assert!(c.slots.len() <= 2);
    assert_eq!(c.get(3, 3), Some(&33));
    let first_two_left = [c.get(1, 3).is_some(), c.get(2, 3).is_some()];
    assert_eq!(first_two_left.iter().filter(|kept| **kept).count(), 1);
}

#[test]
fn reinserting_a_key_refreshes_it_without_eviction() {
    let mut c: TtlCache<u64> = TtlCache::new(2, 100);
    c.insert(1, 11, 0);
    c.insert(2, 22, 1);
    c.insert(1, 99, 50);
    assert_eq!(c.get(1, 149), Some(&99));
    assert_eq!(c.get(2, 50), Some(&22));
}

#[test]
fn manager_serves_fresh_state_after_any_mutation() {
    let mut m = SessionManager::new();
    let game_id = m.create_game(4, 900, 0).expect("create");
    // First read caches the signup state.
    let g = m.get_active_game(4, 1).expect("game");
    assert_eq!(g.players.len(), 0);
    // The mutation invalidates the cached entry, so the next read sees the
    // new player immediately, far inside the time-to-live.
    m.join_game(game_id, 8).expect("join");
    let g = m.get_active_game(4, 2).expect("game");
    assert_eq!(g.players.len(), 1);
    assert_eq!(g.players[0].user_id, 8);
}

#[test]
fn refresh_rederives_from_the_store() {
    let mut m = SessionManager::new();
    m.create_game(4, 900, 0).expect("create");
    let before = m.refresh(4, 1).expect("state");
    assert!(matches!(before.status, GameStatus::Signup));
    assert!(m.refresh(5, 1).is_none());
}
