use breakout_core::brick::{decay, tier_value, BrickLevel, TierColor};
use breakout_core::geom::{Rect, Vec2i};
use breakout_core::phase::GameState;
use breakout_core::tick::{
    despawn_cleared_bricks, despawn_lost_balls, drain_score_events, move_paddle, tick,
};
use breakout_core::world::{
    Ball, Brick, Paddle, WallLocation, World, BALL_START_VX, BALL_START_VY, BALL_START_X, BALL_START_Y,
    GRID_TOTAL_VALUE, NO_ENTITY, PADDLE_MAX_X, PADDLE_MIN_X,
};

fn brick_values_total(w: &World) -> u32 {
    w.bricks.iter().map(|b| b.value).sum()
}

#[test]
fn durability_decays_one_tier_per_hit() {
    assert!(matches!(decay(BrickLevel::Super), BrickLevel::High));
    assert!(matches!(decay(BrickLevel::High), BrickLevel::Mid));
    assert!(matches!(decay(BrickLevel::Mid), BrickLevel::Low));
    assert!(matches!(decay(BrickLevel::Low), BrickLevel::Cleared));
    assert!(matches!(decay(BrickLevel::Cleared), BrickLevel::Cleared));
}

#[test]
fn tier_values_follow_initial_tier() {
    assert_eq!(tier_value(BrickLevel::Low), 1);
    assert_eq!(tier_value(BrickLevel::Mid), 2);
    assert_eq!(tier_value(BrickLevel::High), 3);
    assert_eq!(tier_value(BrickLevel::Super), 5);
    assert_eq!(tier_value(BrickLevel::Cleared), 0);
}

#[test]
fn fresh_world_starts_loading_assets() {
    let w = World::new();
    assert!(matches!(w.phase, GameState::LoadAssets));
    assert_eq!(w.balls.len(), 0);
    assert_eq!(w.bricks.len(), 0);
    assert!(w.paddle.is_none());
    assert_eq!(w.score, 0);
}

#[test]
fn assets_loaded_moves_to_main_menu() {
    let mut w = World::new();
    w.assets_loaded();
    assert!(matches!(w.phase, GameState::MainMenu));
}

#[test]
fn entering_prep_spawns_one_ball_one_paddle_and_the_grid() {
    let mut w = World::new();
    w.assets_loaded();
    w.select_play();
    assert!(matches!(w.phase, GameState::PrepGame));
    assert_eq!(w.balls.len(), 1);
    let ball = w.balls[0];
    assert_eq!(ball.pos, Vec2i { x: BALL_START_X, y: BALL_START_Y });
    assert_eq!(ball.vel, Vec2i { x: BALL_START_VX, y: BALL_START_VY });
    assert_eq!(ball.last_hit, NO_ENTITY);
    let paddle = w.paddle.expect("paddle spawned");
    assert_eq!(paddle.x, 0);
    assert_eq!(paddle.dir, 0);
    assert_eq!(w.walls.len(), 3);
    assert_eq!(w.bricks.len(), 20);
    assert_eq!(w.score, 0);
    assert_eq!(brick_values_total(&w), GRID_TOTAL_VALUE);
}

#[test]
fn grid_rows_run_super_high_mid_low_top_to_bottom() {
    let mut w = World::new();
    w.assets_loaded();
    w.select_play();
    for (i, bk) in w.bricks.iter().enumerate() {
        let row = i / 5;
        let col = i % 5;
        match row {
            0 => assert!(matches!(bk.level, BrickLevel::Super)),
            1 => assert!(matches!(bk.level, BrickLevel::High)),
            2 => assert!(matches!(bk.level, BrickLevel::Mid)),
            _ => assert!(matches!(bk.level, BrickLevel::Low)),
        }
        assert_eq!(bk.value, tier_value(bk.level));
        assert_eq!(bk.rect.cx, -240_000 + 120_000 * col as i64);
        assert_eq!(bk.rect.cy, 300_000 - 60_000 * row as i64);
        assert_eq!(bk.rect.hx, 50_000);
        assert_eq!(bk.rect.hy, 15_000);
    }
}

#[test]
fn prep_finishes_into_game_once_ball_and_paddle_exist() {
    let mut w = World::new();
    w.assets_loaded();
    w.select_play();
    w.finish_prep();
    assert!(matches!(w.phase, GameState::InGame));
}

#[test]
fn pause_toggles_and_returns() {
    let mut w = World::new();
    w.assets_loaded();
    w.select_play();
    w.finish_prep();
    w.toggle_pause();
    assert!(matches!(w.phase, GameState::Paused));
    w.toggle_pause();
    assert!(matches!(w.phase, GameState::InGame));
}

#[test]
fn main_menu_despawns_everything() {
    let mut w = World::new();
    w.assets_loaded();
    w.select_play();
    w.finish_prep();
    w.toggle_pause();
    w.select_main_menu();
    assert!(matches!(w.phase, GameState::MainMenu));
    assert_eq!(w.balls.len(), 0);
    assert_eq!(w.bricks.len(), 0);
    assert!(w.paddle.is_none());
    assert_eq!(w.walls.len(), 0);
}

#[test]
fn restart_respawns_a_fresh_round() {
    let mut w = World::new();
    w.assets_loaded();
    w.select_play();
    w.finish_prep();
    w.phase = GameState::EndGame;
    w.score = 13;
    w.select_restart();
    assert!(matches!(w.phase, GameState::PrepGame));
    assert_eq!(w.score, 0);
    assert_eq!(w.balls.len(), 1);
    assert_eq!(w.bricks.len(), 20);
}

#[test]
fn tick_does_nothing_outside_in_game() {
    let mut w = World::new();
    w.assets_loaded();
    w.select_play();
    w.finish_prep();
    w.toggle_pause();
    let score_before = w.score;
    let pos_before = w.balls[0].pos;
    tick(&mut w, 1, 16);
    assert!(matches!(w.phase, GameState::Paused));
    assert_eq!(w.score, score_before);
    assert_eq!(w.balls[0].pos, pos_before);
}

#[test]
fn paddle_clamps_at_both_walls() {
    let mut w = World::new();
    w.paddle = Some(Paddle { id: 1, x: 0, dir: -1 });
    move_paddle(&mut w, 1_000_000);
    assert_eq!(w.paddle.unwrap().x, PADDLE_MIN_X);
    w.paddle = Some(Paddle { id: 1, x: 0, dir: 1 });
    move_paddle(&mut w, 1_000_000);
    assert_eq!(w.paddle.unwrap().x, PADDLE_MAX_X);
    w.paddle = Some(Paddle { id: 1, x: 100_000, dir: -1 });
    move_paddle(&mut w, 100);
    assert_eq!(w.paddle.unwrap().x, 64_000);
}

#[test]
fn cleanup_pays_each_cleared_brick_once_in_order() {
    let rect = Rect { cx: 0, cy: 0, hx: 50_000, hy: 15_000 };
    let mut w = World::new();
    w.bricks.push(Brick { id: 10, rect, level: BrickLevel::Cleared, value: 2 });
    w.bricks.push(Brick { id: 11, rect, level: BrickLevel::Low, value: 1 });
    w.bricks.push(Brick { id: 12, rect, level: BrickLevel::Cleared, value: 5 });
    despawn_cleared_bricks(&mut w);
    assert_eq!(w.bricks.len(), 1);
    assert_eq!(w.bricks[0].id, 11);
    assert_eq!(w.score_events, vec![2, 5]);
    assert_eq!(w.score, 0);
    drain_score_events(&mut w);
    assert_eq!(w.score, 7);
    assert_eq!(w.score_events.len(), 0);
    // Draining again is a no-op: nothing is ever paid twice.
    drain_score_events(&mut w);
    assert_eq!(w.score, 7);
}

#[test]
fn lost_ball_is_removed_within_one_tick() {
    let mut w = World::new();
    w.balls.push(Ball {
        id: 5,
        pos: Vec2i { x: 0, y: -380_000 },
        vel: Vec2i { x: 0, y: -283 },
        last_hit: NO_ENTITY,
    });
    w.balls.push(Ball {
        id: 6,
        pos: Vec2i { x: 0, y: 0 },
        vel: Vec2i { x: 283, y: 283 },
        last_hit: NO_ENTITY,
    });
    despawn_lost_balls(&mut w);
    assert_eq!(w.balls.len(), 1);
    assert_eq!(w.balls[0].id, 6);
}

#[test]
fn clearing_the_last_brick_wins_within_the_same_tick() {
    // One brick at Low, one ball resting at its left edge moving right:
    // the tick decays the brick to cleared, pays its value, removes it,
    // and ends the round at once.
    let mut w = World::new();
    w.phase = GameState::InGame;
    w.bricks.push(Brick {
        id: 7,
        rect: Rect { cx: 0, cy: -100_000, hx: 50_000, hy: 15_000 },
        level: BrickLevel::Low,
        value: 1,
    });
    w.balls.push(Ball {
        id: 5,
        pos: Vec2i { x: -55_000, y: -100_000 },
        vel: Vec2i { x: 283, y: 0 },
        last_hit: NO_ENTITY,
    });
    tick(&mut w, 0, 0);
    assert!(matches!(w.phase, GameState::EndGame));
    assert_eq!(w.bricks.len(), 0);
    assert_eq!(w.score, 1);
    assert_eq!(w.score_events.len(), 0);
    assert_eq!(w.balls[0].vel, Vec2i { x: -283, y: 0 });
    assert_eq!(w.balls[0].last_hit, 7);
}

#[test]
fn ball_does_not_hit_the_same_entity_twice_in_a_row() {
    // Same setup as the win scenario, but the ball already bounced off
    // this brick: the contact is skipped and nothing changes.
    let mut w = World::new();
    w.phase = GameState::InGame;
    w.bricks.push(Brick {
        id: 7,
        rect: Rect { cx: 0, cy: -100_000, hx: 50_000, hy: 15_000 },
        level: BrickLevel::Low,
        value: 1,
    });
    w.balls.push(Ball {
        id: 5,
        pos: Vec2i { x: -55_000, y: -100_000 },
        vel: Vec2i { x: 283, y: 0 },
        last_hit: 7,
    });
    tick(&mut w, 0, 0);
    assert!(matches!(w.phase, GameState::InGame));
    assert_eq!(w.bricks.len(), 1);
    assert!(matches!(w.bricks[0].level, BrickLevel::Low));
    assert_eq!(w.score, 0);
    assert_eq!(w.balls[0].vel, Vec2i { x: 283, y: 0 });
}

#[test]
fn losing_the_last_ball_ends_the_round_on_the_next_tick() {
    // The ball drops below the bottom boundary this tick and is
    // despawned; the next tick's emptiness check ends the round.
    let mut w = World::new();
    w.phase = GameState::InGame;
    w.bricks.push(Brick {
        id: 7,
        rect: Rect { cx: 0, cy: 300_000, hx: 50_000, hy: 15_000 },
        level: BrickLevel::Super,
        value: 5,
    });
    w.balls.push(Ball {
        id: 5,
        pos: Vec2i { x: 0, y: -350_000 },
        vel: Vec2i { x: 0, y: -283 },
        last_hit: NO_ENTITY,
    });
    tick(&mut w, 0, 100);
    assert!(matches!(w.phase, GameState::InGame));
    assert_eq!(w.balls.len(), 0);
    tick(&mut w, 0, 100);
    assert!(matches!(w.phase, GameState::EndGame));
    assert_eq!(w.bricks.len(), 1);
    assert_eq!(w.score, 0);
}

#[test]
fn score_plus_outstanding_value_is_conserved_over_a_game() {
    let mut w = World::new();
    w.assets_loaded();
    w.select_play();
    w.finish_prep();
    let initial_speed_sq = {
        let v = w.balls[0].vel;
        v.x * v.x + v.y * v.y
    };
    for t in 0..400 {
        if !matches!(w.phase, GameState::InGame) {
            break;
        }
        // Chase the ball with the paddle, as a player would.
        let dir = match (w.balls.first(), w.paddle) {
            (Some(b), Some(p)) => (b.pos.x - p.x).signum(),
            _ => 0,
        };
        tick(&mut w, dir, 16);
        assert_eq!(
            w.score + brick_values_total(&w),
            GRID_TOTAL_VALUE,
            "conservation broken at tick {t}"
        );
        assert_eq!(w.score_events.len(), 0);
        for b in &w.balls {
            let sq = b.vel.x * b.vel.x + b.vel.y * b.vel.y;
            assert!(sq <= initial_speed_sq, "speed grew at tick {t}");
            assert!(b.pos.x >= -360_000 && b.pos.x <= 360_000);
            assert!(b.pos.y >= -360_000 && b.pos.y <= 360_000);
        }
    }
}

#[test]
fn wall_geometry_matches_the_playfield() {
    let left = WallLocation::Left;
    assert_eq!(left.position(), Vec2i { x: -360_000, y: 1_000 });
    assert_eq!(left.size(), Vec2i { x: 10_000, y: 730_000 });
    let right = WallLocation::Right;
    assert_eq!(right.position(), Vec2i { x: 360_000, y: 0 });
    assert_eq!(right.size(), Vec2i { x: 10_000, y: 730_000 });
    let top = WallLocation::Top;
    assert_eq!(top.position(), Vec2i { x: 0, y: 360_000 });
    assert_eq!(top.size(), Vec2i { x: 730_000, y: 10_000 });
}

#[test]
fn tier_colors_follow_the_tier() {
    let super_color = BrickLevel::Super.get_color();
    assert_eq!(super_color, TierColor { red: 400, green: 400, blue: 500 });
    assert_eq!(BrickLevel::High.get_color(), TierColor { red: 800, green: 800, blue: 0 });
    assert_eq!(BrickLevel::Mid.get_color(), TierColor { red: 1000, green: 500, blue: 500 });
    assert_eq!(BrickLevel::Low.get_color(), BrickLevel::Cleared.get_color());
}
