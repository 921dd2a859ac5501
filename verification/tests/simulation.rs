use hello_actix::{Fireball, FireballState, GameState, SpawnSeed};

fn active_fireball(id: u64, x: i64, y: i64, vx: i64, vy: i64) -> Fireball {
    Fireball { id, x, y, vx, vy, state: FireballState::Active, extinguish_timer: 1000 }
}

#[test]
fn player_position_clamps_low() {
    let mut g = GameState::new();
    g.update_player_pos(-5_000);
    assert_eq!(g.player.y, 0);
}

#[test]
fn player_position_clamps_high() {
    let mut g = GameState::new();
    g.update_player_pos(999_999_999);
    assert_eq!(g.player.y, 600_000);
}

#[test]
fn player_position_in_range_is_kept() {
    let mut g = GameState::new();
    g.update_player_pos(123_456);
    assert_eq!(g.player.y, 123_456);
}

#[test]
fn player_position_ignored_after_game_over() {
    let mut g = GameState::new();
    g.fireballs.push(active_fireball(1, 749_000, 0, 3_000, 0));
    g.fireball_id_counter = 1;
    g.tick_seeded(None);
    assert!(g.game_over);
    let before = g.player.y;
    g.update_player_pos(10_000);
    assert_eq!(g.player.y, before);
}

#[test]
fn score_is_non_decreasing_over_random_ticks() {
    let mut g = GameState::new();
    let mut last = g.score;
    for _ in 0..2_000 {
        g.tick();
        assert!(g.score >= last);
        last = g.score;
    }
}

#[test]
fn terminal_tick_is_idempotent() {
    let mut g = GameState::new();
    g.update_player_pos(0);
    g.fireballs.push(active_fireball(1, 749_000, 300_000, 3_000, 0));
    g.fireballs.push(Fireball {
        id: 2,
        x: 400_000,
        y: 200_000,
        vx: 3_000,
        vy: 0,
        state: FireballState::Extinguishing,
        extinguish_timer: 500,
    });
    g.fireball_id_counter = 2;
    g.tick_seeded(None);
    assert!(g.game_over);
    let score = g.score;
    let n = g.fireballs.len();
    let frozen: Vec<(u64, i64, i64, i64)> =
        g.fireballs.iter().map(|f| (f.id, f.x, f.y, f.extinguish_timer)).collect();
    for _ in 0..50 {
        g.tick();
        assert!(g.game_over);
        assert_eq!(g.score, score);
        assert_eq!(g.fireballs.len(), n);
        let now: Vec<(u64, i64, i64, i64)> =
            g.fireballs.iter().map(|f| (f.id, f.x, f.y, f.extinguish_timer)).collect();
        assert_eq!(now, frozen);
    }
}

#[test]
fn breach_ends_the_game_regardless_of_other_fireballs() {
    let mut g = GameState::new();
    g.update_player_pos(0);
    // One faraway fireball, one fading fireball, one that breaches this tick.
    g.fireballs.push(active_fireball(1, 100_000, 300_000, 3_000, 0));
    g.fireballs.push(Fireball {
        id: 2,
        x: 300_000,
        y: 100_000,
        vx: 3_000,
        vy: 0,
        state: FireballState::Extinguishing,
        extinguish_timer: 800,
    });
    g.fireballs.push(active_fireball(3, 748_500, 300_000, 3_000, 0));
    g.fireball_id_counter = 3;
    g.tick_seeded(None);
    assert!(g.game_over);
}

#[test]
fn spray_never_hits_at_or_right_of_the_defense_line() {
    // Lands exactly on the defense line: dx == 0, perfectly aligned and as
    // close as can be, yet not extinguished (and not a breach either).
    let mut g = GameState::new();
    g.fireballs.push(active_fireball(1, 747_000, 300_000, 3_000, 0));
    g.fireball_id_counter = 1;
    g.tick_seeded(None);
    assert!(!g.game_over);
    assert_eq!(g.score, 0);
    assert!(matches!(g.fireballs[0].state, FireballState::Active));

    // Lands past the line: dx > 0 never extinguishes; it breaches instead.
    let mut g2 = GameState::new();
    g2.fireballs.push(active_fireball(1, 748_000, 300_000, 3_000, 0));
    g2.fireball_id_counter = 1;
    g2.tick_seeded(None);
    assert!(g2.game_over);
    assert_eq!(g2.score, 0);
    assert!(matches!(g2.fireballs[0].state, FireballState::Active));
}

#[test]
fn aligned_close_fireball_is_extinguished_for_ten_points_once() {
    // Defense at x = 750 canvas units; the fireball reaches (703, player.y):
    // dx < 0, well within range, dead ahead of the spray.
    let mut g = GameState::new();
    assert_eq!(g.player.y, 300_000);
    g.fireballs.push(active_fireball(1, 700_000, 300_000, 3_000, 0));
    g.fireball_id_counter = 1;
    g.tick_seeded(None);
    assert_eq!(g.score, 10);
    assert!(!g.game_over);
    assert_eq!(g.fireballs.len(), 1);
    assert!(matches!(g.fireballs[0].state, FireballState::Extinguishing));
    // The same fireball never scores again while it fades out.
    for _ in 0..30 {
        g.tick_seeded(None);
        assert_eq!(g.score, 10);
    }
    assert!(g.fireballs.is_empty());
}

#[test]
fn straight_trajectory_breaches_on_tick_234() {
    // Spawned at (50, 300) aimed at (750, 300) with score 0: speed 3.0,
    // vx = 3.0, vy = 0. The player waits at the top so the spray misses.
    let mut g = GameState::new();
    g.update_player_pos(0);
    g.tick_seeded(Some(SpawnSeed { start_y: 300_000, target_y: 300_000 }));
    assert_eq!(g.fireballs.len(), 1);
    assert_eq!(g.fireballs[0].vx, 3_000);
    assert_eq!(g.fireballs[0].vy, 0);
    assert_eq!(g.fireballs[0].x, 53_000); // it advanced once on its spawn tick
    for t in 2..=233 {
        g.tick_seeded(None);
        assert!(!g.game_over, "game ended early on tick {}", t);
    }
    assert_eq!(g.fireballs[0].x, 749_000);
    g.tick_seeded(None);
    assert!(g.game_over);
    assert_eq!(g.fireballs[0].x, 752_000);
}

#[test]
fn fading_fireball_is_removed_after_twenty_ticks_without_moving() {
    let mut g = GameState::new();
    g.update_player_pos(0);
    g.fireballs.push(Fireball {
        id: 1,
        x: 400_000,
        y: 100_000,
        vx: 3_000,
        vy: 0,
        state: FireballState::Extinguishing,
        extinguish_timer: 1000,
    });
    g.fireball_id_counter = 1;
    for t in 1..=19 {
        g.tick_seeded(None);
        assert_eq!(g.fireballs.len(), 1, "removed too early on tick {}", t);
        assert_eq!(g.fireballs[0].x, 400_000);
        assert_eq!(g.fireballs[0].y, 100_000);
        assert_eq!(g.fireballs[0].extinguish_timer, 1000 - 50 * t);
    }
    g.tick_seeded(None);
    assert!(g.fireballs.is_empty());
}

#[test]
fn spawn_assigns_increasing_ids_and_keeps_difficulty_coupling() {
    let mut g = GameState::new();
    g.update_player_pos(0);
    g.tick_seeded(Some(SpawnSeed { start_y: 300_000, target_y: 300_000 }));
    g.tick_seeded(Some(SpawnSeed { start_y: 120_000, target_y: 500_000 }));
    assert_eq!(g.fireballs.len(), 2);
    assert_eq!(g.fireballs[0].id, 1);
    assert_eq!(g.fireballs[1].id, 2);
    assert!(g.fireballs[1].vx >= 1);
    assert!(g.fireballs[1].vy.abs() <= g.fireballs[1].vx);
}

#[test]
fn new_game_starts_clean() {
    let g = GameState::new();
    assert_eq!(g.score, 0);
    assert!(!g.game_over);
    assert!(g.fireballs.is_empty());
    assert_eq!(g.player.y, 300_000);
    assert_eq!(g.fireball_id_counter, 0);
}
