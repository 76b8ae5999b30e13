//! The data model's helper operations.

use werewolf_core::state::{GameState, GameStatus, Player};

fn player(user_id: u64, is_alive: bool) -> Player {
    Player { user_id, role_id: None, is_alive, votes_for: None }
}

fn state(players: Vec<Player>) -> GameState {
    GameState {
        game_id: 0,
        guild_id: 1,
        status: GameStatus::Active,
        players,
        day_phase: true,
        day_number: 1,
    }
}

#[test]
fn alive_players_keeps_order_and_drops_the_dead() {
    let g = state(vec![player(1, true), player(2, false), player(3, true)]);
    let alive = g.alive_players();
    assert_eq!(alive.len(), 2);
    assert_eq!(alive[0].user_id, 1);
    assert_eq!(alive[1].user_id, 3);
}

#[test]
fn player_by_number_is_one_based() {
    let g = state(vec![player(5, true), player(6, true)]);
    assert_eq!(g.player_by_number(1).map(|p| p.user_id), Some(5));
    assert_eq!(g.player_by_number(2).map(|p| p.user_id), Some(6));
    assert!(g.player_by_number(0).is_none());
    assert!(g.player_by_number(3).is_none());
}

#[test]
fn duplicate_copies_every_field() {
    let g = state(vec![player(5, true)]);
    let d = g.duplicate();
    assert_eq!(d.game_id, g.game_id);
    assert_eq!(d.guild_id, g.guild_id);
    assert!(matches!(d.status, GameStatus::Active));
    assert_eq!(d.players.len(), 1);
    assert_eq!(d.players[0].user_id, 5);
    assert_eq!(d.day_phase, g.day_phase);
    assert_eq!(d.day_number, g.day_number);
}
