//! The vote tally engine on plain snapshots, without store or cache.

use werewolf_core::state::Player;
use werewolf_core::tally::{vote_tally, TallyEntry};

fn player(user_id: u64, is_alive: bool, votes_for: Option<u64>) -> Player {
    Player { user_id, role_id: None, is_alive, votes_for }
}

#[test]
fn empty_snapshot_gives_empty_ranking() {
    let players: Vec<Player> = Vec::new();
    assert!(vote_tally(&players).is_empty());
}

#[test]
fn no_votes_gives_empty_ranking() {
    let players = vec![player(1, true, None), player(2, true, None)];
    assert!(vote_tally(&players).is_empty());
}

#[test]
fn counts_group_by_target_and_sort_descending() {
    let players = vec![
        player(1, true, Some(4)),
        player(2, true, Some(4)),
        player(3, true, Some(4)),
        player(4, true, Some(5)),
        player(5, true, None),
    ];
    assert_eq!(
        vote_tally(&players),
        vec![
            TallyEntry { target: 4, votes: 3 },
            TallyEntry { target: 5, votes: 1 },
        ]
    );
}

#[test]
fn ties_break_by_ascending_target_id() {
    let players = vec![
        player(9, true, Some(7)),
        player(7, true, Some(9)),
        player(3, true, Some(9)),
        player(5, true, Some(7)),
    ];
    assert_eq!(
        vote_tally(&players),
        vec![
            TallyEntry { target: 7, votes: 2 },
            TallyEntry { target: 9, votes: 2 },
        ]
    );
}

#[test]
fn insertion_order_does_not_change_the_ranking() {
    let a = vec![
        player(1, true, Some(3)),
        player(2, true, Some(3)),
        player(3, true, Some(1)),
        player(4, false, Some(1)),
    ];
    let b = vec![
        player(4, false, Some(1)),
        player(3, true, Some(1)),
        player(1, true, Some(3)),
        player(2, true, Some(3)),
    ];
    assert_eq!(vote_tally(&a), vote_tally(&b));
}

#[test]
fn votes_from_dead_players_are_excluded() {
    let players = vec![
        player(1, false, Some(2)),
        player(2, true, Some(3)),
        player(3, true, None),
    ];
    // Only the vote of the alive player 2 counts.
    assert_eq!(vote_tally(&players), vec![TallyEntry { target: 3, votes: 1 }]);
}

#[test]
fn votes_targeting_dead_players_are_excluded() {
    let players = vec![
        player(1, true, Some(2)),
        player(2, false, None),
        player(3, true, Some(1)),
    ];
    // Target 2 is dead, so only target 1 appears.
    assert_eq!(vote_tally(&players), vec![TallyEntry { target: 1, votes: 1 }]);
}

#[test]
fn dead_player_with_votes_changes_nothing() {
    let base = vec![player(1, true, Some(2)), player(2, true, None)];
    let with_dead = vec![
        player(1, true, Some(2)),
        player(2, true, None),
        player(9, false, Some(2)),
    ];
    assert_eq!(vote_tally(&base), vote_tally(&with_dead));
}
