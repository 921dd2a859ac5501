use hello_actix::{merged_best, Fireball, FireballState, GameState, Session};

fn session_about_to_end() -> Session {
    let mut s = Session::new();
    s.game.update_player_pos(0);
    s.game.fireballs.push(Fireball {
        id: 1,
        x: 749_000,
        y: 300_000,
        vx: 3_000,
        vy: 0,
        state: FireballState::Active,
        extinguish_timer: 1000,
    });
    s.game.fireball_id_counter = 1;
    s
}

#[test]
fn fresh_session_is_running_and_uncommitted() {
    let s = Session::new();
    assert!(!s.committed);
    assert!(!s.game.game_over);
    assert_eq!(s.game.score, 0);
}

#[test]
fn position_messages_reach_the_simulation() {
    let mut s = Session::new();
    s.handle_position(42_000);
    assert_eq!(s.game.player.y, 42_000);
    s.handle_position(-1);
    assert_eq!(s.game.player.y, 0);
    assert!(!s.committed);
}

#[test]
fn snapshot_mirrors_the_state() {
    let mut s = Session::new();
    let (snap, commit) = s.clock_tick();
    assert_eq!(snap.score, s.game.score);
    assert_eq!(snap.game_over, s.game.game_over);
    assert_eq!(snap.player_y, s.game.player.y);
    assert_eq!(snap.fireballs.len(), s.game.fireballs.len());
    assert!(commit.is_none());
}

#[test]
fn commit_is_requested_exactly_once_on_first_terminal_tick() {
    let mut s = session_about_to_end();
    let (snap, commit) = s.clock_tick();
    assert!(snap.game_over);
    assert_eq!(commit, Some(s.game.score));
    assert!(s.committed);
    // The clock keeps running for the end screen; no further commits.
    for _ in 0..25 {
        let (snap2, commit2) = s.clock_tick();
        assert!(snap2.game_over);
        assert_eq!(commit2, None);
        assert!(s.committed);
    }
}

#[test]
fn committed_best_never_regresses_the_stored_score() {
    assert_eq!(merged_best(Some(80), 50), 80);
    assert_eq!(merged_best(Some(30), 90), 90);
}

#[test]
fn committed_best_with_nothing_stored_is_the_session_score() {
    assert_eq!(merged_best(None, 42), 42);
    assert_eq!(merged_best(Some(7), 7), 7);
}
