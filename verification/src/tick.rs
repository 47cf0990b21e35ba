//! The per-tick gameplay pipeline, gated on the `InGame` phase: loss
//! check, paddle intent, integration, collision resolution, cleanup of
//! cleared bricks and lost balls, score-event draining, and the win check.
//!
//! Each system has an exact functional specification; `tick` composes them
//! in order and is specified by `spec_tick`.

use vstd::prelude::*;
use crate::brick::{decay, spec_decay, BrickLevel};
use crate::geom::{contact_normal, dot, spec_contact_normal, Normal, Rect, Vec2i};
use crate::phase::GameState;
use crate::physics::{
    integrate, lemma_component_bound, reflect, spec_reflect, DT_BOUND, VEL_BOUND,
};
use crate::world::{
    ball_in_play, ball_wf, balls_in_play, brick_wf, paddle_wf, sum_brick_values, sum_events,
    wall_wf, wf, Ball, Brick, Paddle, Wall, World, BALL_RADIUS, PADDLE_HALF_H, PADDLE_HALF_W,
    PADDLE_MAX_X, PADDLE_MIN_X, PADDLE_SPEED, PADDLE_Y,
};
use crate::{BOTTOM_WALL, LEFT_WALL, RIGHT_WALL, TOP_WALL};

verus! {

/// The paddle's collider rectangle: its moving center at the fixed paddle
/// height.
pub open spec fn spec_paddle_rect(p: Paddle) -> Rect {
    Rect { cx: p.x, cy: PADDLE_Y, hx: PADDLE_HALF_W, hy: PADDLE_HALF_H }
}

/// The paddle after one tick of movement: its center advances by
/// `dir * PADDLE_SPEED * dt` and is clamped to the playfield bounds.
pub open spec fn spec_paddle_step(p: Paddle, dt: int) -> Paddle {
    let target = p.x + p.dir * PADDLE_SPEED * dt;
    let clamped = if target < PADDLE_MIN_X {
        PADDLE_MIN_X as int
    } else if target > PADDLE_MAX_X {
        PADDLE_MAX_X as int
    } else {
        target
    };
    Paddle { x: clamped as i64, ..p }
}

/// A ball after one explicit Euler step.
pub open spec fn spec_move_ball(b: Ball, dt: int) -> Ball {
    Ball {
        pos: Vec2i { x: (b.pos.x + b.vel.x * dt) as i64, y: (b.pos.y + b.vel.y * dt) as i64 },
        ..b
    }
}

/// Sets the paddle's movement intent for this tick; with no paddle
/// spawned there is nothing to do.
pub fn set_paddle_dir(w: &mut World, dir: i64)
    requires
        wf(*old(w)),
        -1 <= dir <= 1,
    ensures
        wf(*final(w)),
        final(w).paddle == match old(w).paddle {
            Some(p) => Some(Paddle { dir, ..p }),
            None => None::<Paddle>,
        },
        *final(w) == (World { paddle: final(w).paddle, ..*old(w) }),
{
    match read_paddle(w) {
        Some(p) => {
            w.paddle = Some(Paddle { dir, ..p });
        },
        None => {},
    }
}

/// Reads the paddle out of the world without changing it.
fn read_paddle(w: &World) -> (res: Option<Paddle>)
    ensures
        res == w.paddle,
{
    match &w.paddle {
        Some(p) => Some(*p),
        None => None,
    }
}

/// Moves the paddle by its intent, clamped to the playfield; with no
/// paddle spawned there is nothing to do.
pub fn move_paddle(w: &mut World, dt: i64)
    requires
        wf(*old(w)),
        0 <= dt <= DT_BOUND,
    ensures
        wf(*final(w)),
        final(w).paddle == match old(w).paddle {
            Some(p) => Some(spec_paddle_step(p, dt as int)),
            None => None::<Paddle>,
        },
        *final(w) == (World { paddle: final(w).paddle, ..*old(w) }),
{
    match read_paddle(w) {
        Some(p) => {
            proof {
                assert(-360_000_000 <= p.dir * PADDLE_SPEED * dt <= 360_000_000
                    && -360 <= p.dir * PADDLE_SPEED <= 360) by (nonlinear_arith)
                    requires
                        -1 <= p.dir <= 1,
                        0 <= dt <= DT_BOUND,
                        DT_BOUND == 1_000_000,
                        PADDLE_SPEED == 360,
                ;
            }
            let target: i64 = p.x + p.dir * PADDLE_SPEED * dt;
            let clamped: i64 = if target < PADDLE_MIN_X {
                PADDLE_MIN_X
            } else if target > PADDLE_MAX_X {
                PADDLE_MAX_X
            } else {
                target
            };
            w.paddle = Some(Paddle { x: clamped, ..p });
        },
        None => {},
    }
}

/// Integrates every ball's position by one tick.
pub fn move_balls(w: &mut World, dt: i64)
    requires
        wf(*old(w)),
        balls_in_play(*old(w)),
        0 <= dt <= DT_BOUND,
    ensures
        wf(*final(w)),
        final(w).balls@.len() == old(w).balls@.len(),
        forall|i: int|
            0 <= i < old(w).balls@.len() ==> (#[trigger] final(w).balls@[i]) == spec_move_ball(
                old(w).balls@[i],
                dt as int,
            ),
        *final(w) == (World { balls: final(w).balls, ..*old(w) }),
{
    let ghost w0 = *w;
    let n = w.balls.len();
    let mut i: usize = 0;
    while i < n
        invariant
            0 <= i <= n,
            n == w.balls@.len(),
            w.balls@.len() == w0.balls@.len(),
            wf(w0),
            balls_in_play(w0),
            0 <= dt <= DT_BOUND,
            forall|j: int|
                0 <= j < i ==> (#[trigger] w.balls@[j]) == spec_move_ball(
                    w0.balls@[j],
                    dt as int,
                ),
            forall|j: int| i <= j < n ==> (#[trigger] w.balls@[j]) == w0.balls@[j],
            w.bricks == w0.bricks,
            w.paddle == w0.paddle,
            w.walls == w0.walls,
            w.score == w0.score,
            w.score_events == w0.score_events,
            w.phase == w0.phase,
            w.next_id == w0.next_id,
        decreases n - i,
    {
        let b = w.balls[i];
        let moved = integrate(b.pos, b.vel, dt);
        w.balls[i] = Ball { pos: moved, ..b };
        proof {
            lemma_component_bound(b.vel);
            assert(-2_000_000_000_000 <= b.vel.x * dt <= 2_000_000_000_000
                && -2_000_000_000_000 <= b.vel.y * dt <= 2_000_000_000_000) by (nonlinear_arith)
                requires
                    -VEL_BOUND <= b.vel.x <= VEL_BOUND,
                    -VEL_BOUND <= b.vel.y <= VEL_BOUND,
                    0 <= dt <= DT_BOUND,
                    VEL_BOUND == 2_000_000,
                    DT_BOUND == 1_000_000,
            ;
        }
        i = i + 1;
    }
    proof {
        assert forall|j: int| 0 <= j < w.balls@.len() implies ball_wf(#[trigger] w.balls@[j]) by {
            let b0 = w0.balls@[j];
            assert(ball_wf(b0) && ball_in_play(b0));
            lemma_component_bound(b0.vel);
            assert(-2_000_000_000_000 <= b0.vel.x * dt <= 2_000_000_000_000
                && -2_000_000_000_000 <= b0.vel.y * dt <= 2_000_000_000_000) by (nonlinear_arith)
                requires
                    -VEL_BOUND <= b0.vel.x <= VEL_BOUND,
                    -VEL_BOUND <= b0.vel.y <= VEL_BOUND,
                    0 <= dt <= DT_BOUND,
                    VEL_BOUND == 2_000_000,
                    DT_BOUND == 1_000_000,
            ;
            assert(w.balls@[j] == spec_move_ball(b0, dt as int));
        }
    }
}

/// Declares the round lost when no ball remains: the phase moves from
/// `InGame` to `EndGame`; in any other situation nothing changes.
pub fn check_end_game(w: &mut World)
    requires
        wf(*old(w)),
    ensures
        wf(*final(w)),
        final(w).phase == if old(w).phase is InGame && old(w).balls@.len() == 0 {
            GameState::EndGame
        } else {
            old(w).phase
        },
        *final(w) == (World { phase: final(w).phase, ..*old(w) }),
{
    match w.phase {
        GameState::InGame => {
            if w.balls.len() == 0 {
                w.phase = GameState::EndGame;
            }
        },
        _ => {},
    }
}

/// Declares the round won when no brick remains: the phase moves from
/// `InGame` to `EndGame`; in any other situation nothing changes.
pub fn check_win(w: &mut World)
    requires
        wf(*old(w)),
    ensures
        wf(*final(w)),
        final(w).phase == if old(w).phase is InGame && old(w).bricks@.len() == 0 {
            GameState::EndGame
        } else {
            old(w).phase
        },
        *final(w) == (World { phase: final(w).phase, ..*old(w) }),
{
    match w.phase {
        GameState::InGame => {
            if w.bricks.len() == 0 {
                w.phase = GameState::EndGame;
            }
        },
        _ => {},
    }
}

/// Applies every queued score event to the running total and empties the
/// queue; the total grows by exactly the sum of the queue.
pub fn drain_score_events(w: &mut World)
    requires
        wf(*old(w)),
    ensures
        wf(*final(w)),
        final(w).score == old(w).score + sum_events(old(w).score_events@),
        final(w).score_events@.len() == 0,
        *final(w) == (World {
            score: final(w).score,
            score_events: final(w).score_events,
            ..*old(w)
        }),
{
    let ghost w0 = *w;
    loop
        invariant
            wf(w0),
            w.score + sum_events(w.score_events@) == w0.score + sum_events(w0.score_events@),
            w.score + sum_events(w.score_events@) + sum_brick_values(w.bricks@) <= u32::MAX,
            w.balls == w0.balls,
            w.bricks == w0.bricks,
            w.paddle == w0.paddle,
            w.walls == w0.walls,
            w.phase == w0.phase,
            w.next_id == w0.next_id,
        ensures
            w.score_events@.len() == 0,
            w.score + sum_events(w.score_events@) == w0.score + sum_events(w0.score_events@),
            w.balls == w0.balls,
            w.bricks == w0.bricks,
            w.paddle == w0.paddle,
            w.walls == w0.walls,
            w.phase == w0.phase,
            w.next_id == w0.next_id,
            w.score + sum_events(w.score_events@) + sum_brick_values(w.bricks@) <= u32::MAX,
        decreases w.score_events@.len(),
    {
        proof {
            lemma_sum_events_nonneg_all(w.score_events@);
            crate::world::lemma_sum_brick_values_nonneg(w.bricks@);
        }
        match w.score_events.pop() {
            Some(ev) => {
                w.score = w.score + ev;
            },
            None => {
                break ;
            },
        }
    }
    proof {
        assert(sum_events(w.score_events@) == 0);
    }
}

/// Every entry of an event queue is within the sum of the queue: the sum
/// of any prefix is nonnegative, and so is the sum after removing the
/// last entry.
proof fn lemma_sum_events_nonneg_all(s: Seq<u32>)
    ensures
        sum_events(s) >= 0,
        s.len() > 0 ==> sum_events(s.drop_last()) >= 0 && sum_events(s) >= s.last(),
{
    crate::world::lemma_sum_events_nonneg(s);
    if s.len() > 0 {
        crate::world::lemma_sum_events_nonneg(s.drop_last());
    }
}

/// The bricks that survive a cleanup pass: everything whose durability has
/// not reached `Cleared`, in order.
pub open spec fn spec_surviving_bricks(s: Seq<Brick>) -> Seq<Brick>
    decreases s.len(),
{
    if s.len() == 0 {
        s
    } else {
        let rest = spec_surviving_bricks(s.drop_last());
        if s.last().level is Cleared {
            rest
        } else {
            rest.push(s.last())
        }
    }
}

/// The score events a cleanup pass emits: the fixed value of each cleared
/// brick, in registration order.
pub open spec fn spec_payout(s: Seq<Brick>) -> Seq<u32>
    decreases s.len(),
{
    if s.len() == 0 {
        Seq::<u32>::empty()
    } else {
        let rest = spec_payout(s.drop_last());
        if s.last().level is Cleared {
            rest.push(s.last().value)
        } else {
            rest
        }
    }
}

/// Cleanup conserves value: what the surviving bricks still hold plus what
/// the emitted events pay equals what the bricks held before.  This is the
/// accounting step behind paying each brick out exactly once.
pub proof fn lemma_cleanup_conserves_value(s: Seq<Brick>)
    ensures
        sum_brick_values(spec_surviving_bricks(s)) + sum_events(spec_payout(s))
            == sum_brick_values(s),
    decreases s.len(),
{
    if s.len() > 0 {
        lemma_cleanup_conserves_value(s.drop_last());
        if s.last().level is Cleared {
            crate::world::lemma_sum_events_push(spec_payout(s.drop_last()), s.last().value);
        } else {
            crate::world::lemma_sum_brick_values_push(
                spec_surviving_bricks(s.drop_last()),
                s.last(),
            );
        }
    }
}

/// Prefix step for the surviving-brick and payout folds: extending the
/// prefix by one brick extends the folds by that brick.
proof fn lemma_cleanup_take_step(s: Seq<Brick>, i: int)
    requires
        0 <= i < s.len(),
    ensures
        spec_surviving_bricks(s.take(i + 1)) == if s[i].level is Cleared {
            spec_surviving_bricks(s.take(i))
        } else {
            spec_surviving_bricks(s.take(i)).push(s[i])
        },
        spec_payout(s.take(i + 1)) == if s[i].level is Cleared {
            spec_payout(s.take(i)).push(s[i].value)
        } else {
            spec_payout(s.take(i))
        },
{
    assert(s.take(i + 1).drop_last() =~= s.take(i));
    assert(s.take(i + 1).last() == s[i]);
}

/// Removes every brick whose durability has reached `Cleared` and queues
/// one score event per removed brick, carrying that brick's fixed value,
/// in registration order.  Each brick is paid out exactly once: at the
/// moment it leaves the world, never before and never again.
pub fn despawn_cleared_bricks(w: &mut World)
    requires
        wf(*old(w)),
    ensures
        wf(*final(w)),
        final(w).bricks@ == spec_surviving_bricks(old(w).bricks@),
        final(w).score_events@ == old(w).score_events@ + spec_payout(old(w).bricks@),
        final(w).score == old(w).score,
        final(w).score + sum_events(final(w).score_events@) + sum_brick_values(final(w).bricks@)
            == old(w).score + sum_events(old(w).score_events@) + sum_brick_values(old(w).bricks@),
        forall|i: int|
            0 <= i < final(w).bricks@.len() ==> !((#[trigger] final(w).bricks@[i]).level
                is Cleared),
        *final(w) == (World {
            bricks: final(w).bricks,
            score_events: final(w).score_events,
            ..*old(w)
        }),
{
    let ghost w0 = *w;
    let ghost all = w.bricks@;
    let mut kept: Vec<Brick> = Vec::new();
    let n = w.bricks.len();
    let mut i: usize = 0;
    while i < n
        invariant
            0 <= i <= n,
            n == all.len(),
            w.bricks@ == all,
            kept@ == spec_surviving_bricks(all.take(i as int)),
            w.score_events@ == w0.score_events@ + spec_payout(all.take(i as int)),
            w.balls == w0.balls,
            w.paddle == w0.paddle,
            w.walls == w0.walls,
            w.score == w0.score,
            w.phase == w0.phase,
            w.next_id == w0.next_id,
            w.bricks == w0.bricks,
        decreases n - i,
    {
        let bk = w.bricks[i];
        proof {
            lemma_cleanup_take_step(all, i as int);
        }
        match bk.level {
            BrickLevel::Cleared => {
                w.score_events.push(bk.value);
            },
            _ => {
                kept.push(bk);
            },
        }
        proof {
            assert(all.take(i as int).push(all[i as int]) =~= all.take(i + 1 as int));
        }
        i = i + 1;
    }
    proof {
        assert(all.take(n as int) =~= all);
    }
    w.bricks = kept;
    proof {
        lemma_cleanup_conserves_value(all);
        lemma_surviving_bricks_wf(all);
        lemma_payout_events_sum(w0.score_events@, spec_payout(all));
    }
}

/// Every surviving brick is one of the original bricks, well-formedness
/// included, and none of them is cleared.
proof fn lemma_surviving_bricks_wf(s: Seq<Brick>)
    ensures
        forall|i: int|
            0 <= i < spec_surviving_bricks(s).len() ==> !((
            #[trigger] spec_surviving_bricks(s)[i]).level is Cleared),
        forall|i: int|
            0 <= i < spec_surviving_bricks(s).len() ==> exists|j: int|
                0 <= j < s.len() && (#[trigger] spec_surviving_bricks(s)[i]) == s[j],
    decreases s.len(),
{
    if s.len() > 0 {
        lemma_surviving_bricks_wf(s.drop_last());
        assert forall|i: int| 0 <= i < spec_surviving_bricks(s).len() implies exists|j: int|
            0 <= j < s.len() && (#[trigger] spec_surviving_bricks(s)[i]) == s[j] by {
            let rest = spec_surviving_bricks(s.drop_last());
            if i < rest.len() {
                let j = choose|j: int|
                    0 <= j < s.drop_last().len() && rest[i] == s.drop_last()[j];
                assert(s.drop_last()[j] == s[j]);
                assert(spec_surviving_bricks(s)[i] == s[j]);
            } else {
                assert(spec_surviving_bricks(s)[i] == s[s.len() - 1]);
            }
        }
    }
}

/// Concatenating event queues adds their sums.
proof fn lemma_payout_events_sum(a: Seq<u32>, b: Seq<u32>)
    ensures
        sum_events(a + b) == sum_events(a) + sum_events(b),
    decreases b.len(),
{
    if b.len() == 0 {
        assert(a + b =~= a);
    } else {
        lemma_payout_events_sum(a, b.drop_last());
        assert((a + b).drop_last() =~= a + b.drop_last());
        assert((a + b).last() == b.last());
    }
}

/// The balls that survive a cleanup pass: everything still inside the
/// playfield, in order.
pub open spec fn spec_surviving_balls(s: Seq<Ball>) -> Seq<Ball>
    decreases s.len(),
{
    if s.len() == 0 {
        s
    } else {
        let rest = spec_surviving_balls(s.drop_last());
        if ball_in_play(s.last()) {
            rest.push(s.last())
        } else {
            rest
        }
    }
}

/// Prefix step for the surviving-ball fold.
proof fn lemma_cull_balls_take_step(s: Seq<Ball>, i: int)
    requires
        0 <= i < s.len(),
    ensures
        spec_surviving_balls(s.take(i + 1)) == if ball_in_play(s[i]) {
            spec_surviving_balls(s.take(i)).push(s[i])
        } else {
            spec_surviving_balls(s.take(i))
        },
{
    assert(s.take(i + 1).drop_last() =~= s.take(i));
    assert(s.take(i + 1).last() == s[i]);
}

/// Every surviving ball is one of the original balls.
proof fn lemma_surviving_balls_wf(s: Seq<Ball>)
    ensures
        forall|i: int|
            0 <= i < spec_surviving_balls(s).len() ==> ball_in_play(
                #[trigger] spec_surviving_balls(s)[i],
            ),
        forall|i: int|
            0 <= i < spec_surviving_balls(s).len() ==> exists|j: int|
                0 <= j < s.len() && (#[trigger] spec_surviving_balls(s)[i]) == s[j],
    decreases s.len(),
{
    if s.len() > 0 {
        lemma_surviving_balls_wf(s.drop_last());
        assert forall|i: int| 0 <= i < spec_surviving_balls(s).len() implies ball_in_play(
            #[trigger] spec_surviving_balls(s)[i],
        ) by {
            let rest = spec_surviving_balls(s.drop_last());
            if i < rest.len() {
                assert(spec_surviving_balls(s)[i] == rest[i]);
            } else {
                assert(spec_surviving_balls(s)[i] == s.last());
            }
        }
        assert forall|i: int| 0 <= i < spec_surviving_balls(s).len() implies exists|j: int|
            0 <= j < s.len() && (#[trigger] spec_surviving_balls(s)[i]) == s[j] by {
            let rest = spec_surviving_balls(s.drop_last());
            if i < rest.len() {
                let j = choose|j: int|
                    0 <= j < s.drop_last().len() && rest[i] == s.drop_last()[j];
                assert(s.drop_last()[j] == s[j]);
                assert(spec_surviving_balls(s)[i] == s[j]);
            } else {
                assert(spec_surviving_balls(s)[i] == s[s.len() - 1]);
            }
        }
    }
}

/// Despawns every ball whose position has left the playfield
/// `[LEFT_WALL, RIGHT_WALL] x [BOTTOM_WALL, TOP_WALL]`; a ball that exits
/// is removed within the tick that moved it out.
pub fn despawn_lost_balls(w: &mut World)
    requires
        wf(*old(w)),
    ensures
        wf(*final(w)),
        final(w).balls@ == spec_surviving_balls(old(w).balls@),
        balls_in_play(*final(w)),
        *final(w) == (World { balls: final(w).balls, ..*old(w) }),
{
    let ghost w0 = *w;
    let ghost all = w.balls@;
    let mut kept: Vec<Ball> = Vec::new();
    let n = w.balls.len();
    let mut i: usize = 0;
    while i < n
        invariant
            0 <= i <= n,
            n == all.len(),
            w.balls@ == all,
            kept@ == spec_surviving_balls(all.take(i as int)),
            *w == w0,
        decreases n - i,
    {
        let b = w.balls[i];
        proof {
            lemma_cull_balls_take_step(all, i as int);
        }
        if b.pos.y <= TOP_WALL && b.pos.y >= BOTTOM_WALL && b.pos.x >= LEFT_WALL && b.pos.x
            <= RIGHT_WALL {
            kept.push(b);
        }
        proof {
            assert(all.take(i as int).push(all[i as int]) =~= all.take(i + 1 as int));
        }
        i = i + 1;
    }
    proof {
        assert(all.take(n as int) =~= all);
    }
    w.balls = kept;
    proof {
        lemma_surviving_balls_wf(all);
    }
}

/// The first brick, in registration order from index `i` on, that the
/// ball is in contact with and is not the entity it last bounced off;
/// paired with the contact normal.
pub open spec fn first_brick_hit(b: Ball, bricks: Seq<Brick>, i: int) -> Option<(int, Normal)>
    decreases bricks.len() - i,
{
    if i < 0 || i >= bricks.len() {
        None
    } else if bricks[i].id != b.last_hit && spec_contact_normal(b.pos, BALL_RADIUS, bricks[i].rect)
        is Some {
        Some((i, spec_contact_normal(b.pos, BALL_RADIUS, bricks[i].rect)->Some_0))
    } else {
        first_brick_hit(b, bricks, i + 1)
    }
}

/// The first wall, in registration order from index `i` on, that the ball
/// is in contact with and is not the entity it last bounced off.
pub open spec fn first_wall_hit(b: Ball, walls: Seq<Wall>, i: int) -> Option<(int, Normal)>
    decreases walls.len() - i,
{
    if i < 0 || i >= walls.len() {
        None
    } else if walls[i].id != b.last_hit && spec_contact_normal(b.pos, BALL_RADIUS, walls[i].rect)
        is Some {
        Some((i, spec_contact_normal(b.pos, BALL_RADIUS, walls[i].rect)->Some_0))
    } else {
        first_wall_hit(b, walls, i + 1)
    }
}

/// Contact with the paddle, unless the paddle was the last entity the
/// ball bounced off (or no paddle exists); paired with the paddle's
/// identity.
pub open spec fn spec_paddle_hit(b: Ball, paddle: Option<Paddle>) -> Option<(u64, Normal)> {
    match paddle {
        Some(p) => if p.id != b.last_hit {
            match spec_contact_normal(b.pos, BALL_RADIUS, spec_paddle_rect(p)) {
                Some(n) => Some((p.id, n)),
                None => None,
            }
        } else {
            None
        },
        None => None,
    }
}

/// One ball's collision resolution for one tick: bricks are tested first,
/// in registration order, then the paddle, then the walls; the entity the
/// ball bounced off last is skipped.  At most one contact is resolved: on
/// the first hit the velocity is reflected across the contact normal, the
/// ball remembers the entity, and a hit brick decays one durability tier.
pub open spec fn spec_resolve_ball(
    b: Ball,
    bricks: Seq<Brick>,
    paddle: Option<Paddle>,
    walls: Seq<Wall>,
) -> (Ball, Seq<Brick>) {
    match first_brick_hit(b, bricks, 0) {
        Some((j, n)) => {
            let bk = bricks[j];
            (
                Ball { vel: spec_reflect(b.vel, n), last_hit: bk.id, ..b },
                bricks.update(j, Brick { level: spec_decay(bk.level), ..bk }),
            )
        },
        None => match spec_paddle_hit(b, paddle) {
            Some((pid, n)) => (Ball { vel: spec_reflect(b.vel, n), last_hit: pid, ..b }, bricks),
            None => match first_wall_hit(b, walls, 0) {
                Some((j, n)) => (
                    Ball { vel: spec_reflect(b.vel, n), last_hit: walls[j].id, ..b },
                    bricks,
                ),
                None => (b, bricks),
            },
        },
    }
}

/// When no qualifying contact exists among the first `j` bricks, the
/// search from the start agrees with the search from `j`.
proof fn lemma_first_brick_hit_skip(b: Ball, bricks: Seq<Brick>, j: int)
    requires
        0 <= j <= bricks.len(),
        forall|k: int|
            0 <= k < j ==> !((#[trigger] bricks[k]).id != b.last_hit && spec_contact_normal(
                b.pos,
                BALL_RADIUS,
                bricks[k].rect,
            ) is Some),
    ensures
        first_brick_hit(b, bricks, 0) == first_brick_hit(b, bricks, j),
    decreases j,
{
    if j > 0 {
        lemma_first_brick_hit_skip(b, bricks, j - 1);
    }
}

/// When no qualifying contact exists among the first `j` walls, the
/// search from the start agrees with the search from `j`.
proof fn lemma_first_wall_hit_skip(b: Ball, walls: Seq<Wall>, j: int)
    requires
        0 <= j <= walls.len(),
        forall|k: int|
            0 <= k < j ==> !((#[trigger] walls[k]).id != b.last_hit && spec_contact_normal(
                b.pos,
                BALL_RADIUS,
                walls[k].rect,
            ) is Some),
    ensures
        first_wall_hit(b, walls, 0) == first_wall_hit(b, walls, j),
    decreases j,
{
    if j > 0 {
        lemma_first_wall_hit_skip(b, walls, j - 1);
    }
}

/// Updating one brick without changing its value leaves the total value
/// unchanged.
proof fn lemma_sum_brick_values_update(s: Seq<Brick>, j: int, bk: Brick)
    requires
        0 <= j < s.len(),
        bk.value == s[j].value,
    ensures
        sum_brick_values(s.update(j, bk)) == sum_brick_values(s),
    decreases s.len(),
{
    if j == s.len() - 1 {
        assert(s.update(j, bk).drop_last() =~= s.drop_last());
        assert(s.update(j, bk).last() == bk);
    } else {
        lemma_sum_brick_values_update(s.drop_last(), j, bk);
        assert(s.update(j, bk).drop_last() =~= s.drop_last().update(j, bk));
        assert(s.update(j, bk).last() == s.last());
    }
}

/// Resolves one ball's collisions for this tick, following
/// `spec_resolve_ball`: the first qualifying contact (bricks in order,
/// then paddle, then walls) reflects the velocity, is remembered in
/// `last_hit`, and decays a hit brick one tier.  The returned ball keeps
/// its position and identity, and reflection never gains speed.
pub fn resolve_ball(
    b: Ball,
    bricks: &mut Vec<Brick>,
    paddle: &Option<Paddle>,
    walls: &Vec<Wall>,
) -> (res: Ball)
    requires
        ball_wf(b),
        forall|i: int| 0 <= i < old(bricks)@.len() ==> brick_wf(#[trigger] old(bricks)@[i]),
        forall|i: int| 0 <= i < walls@.len() ==> wall_wf(#[trigger] walls@[i]),
        ((*paddle) matches Some(p) ==> paddle_wf(p)),
    ensures
        res == spec_resolve_ball(b, old(bricks)@, *paddle, walls@).0,
        final(bricks)@ == spec_resolve_ball(b, old(bricks)@, *paddle, walls@).1,
        res.id == b.id && res.pos == b.pos,
        dot(res.vel, res.vel) <= dot(b.vel, b.vel),
        ball_wf(res),
        final(bricks)@.len() == old(bricks)@.len(),
        forall|i: int|
            0 <= i < old(bricks)@.len() ==> (#[trigger] final(bricks)@[i]).id == old(
                bricks,
            )@[i].id && final(bricks)@[i].rect == old(bricks)@[i].rect && final(bricks)@[i].value
                == old(bricks)@[i].value,
        sum_brick_values(final(bricks)@) == sum_brick_values(old(bricks)@),
        forall|i: int| 0 <= i < final(bricks)@.len() ==> brick_wf(#[trigger] final(bricks)@[i]),
        forall|i: int|
            0 <= i < old(bricks)@.len() ==> (#[trigger] final(bricks)@[i]).level == old(
                bricks,
            )@[i].level || final(bricks)@[i].level == spec_decay(old(bricks)@[i].level),
{
    let ghost bricks0 = bricks@;
    let n = bricks.len();
    let mut j: usize = 0;
    while j < n
        invariant
            0 <= j <= n,
            n == bricks0.len(),
            bricks@ == bricks0,
            bricks0 == old(bricks)@,
            ball_wf(b),
            forall|i: int| 0 <= i < bricks0.len() ==> brick_wf(#[trigger] bricks0[i]),
            forall|k: int|
                0 <= k < j ==> !((#[trigger] bricks0[k]).id != b.last_hit && spec_contact_normal(
                    b.pos,
                    BALL_RADIUS,
                    bricks0[k].rect,
                ) is Some),
        decreases n - j,
    {
        let bk = bricks[j];
        if bk.id != b.last_hit {
            let hit = contact_normal(b.pos, BALL_RADIUS, &bk.rect);
            match hit {
                Some(nrm) => {
                    proof {
                        lemma_first_brick_hit_skip(b, bricks0, j as int);
                        assert(first_brick_hit(b, bricks0, 0) == Some((j as int, nrm)));
                    }
                    let decayed = decay(bk.level);
                    bricks[j] = Brick { level: decayed, ..bk };
                    proof {
                        lemma_sum_brick_values_update(
                            bricks0,
                            j as int,
                            Brick { level: spec_decay(bk.level), ..bk },
                        );
                    }
                    let newv = reflect(b.vel, &nrm);
                    return Ball { vel: newv, last_hit: bk.id, ..b };
                },
                None => {},
            }
        }
        j = j + 1;
    }
    proof {
        lemma_first_brick_hit_skip(b, bricks0, n as int);
        assert(first_brick_hit(b, bricks0, 0) is None);
    }
    match copy_paddle(paddle) {
        Some(p) => {
            if p.id != b.last_hit {
                let hit = contact_normal(b.pos, BALL_RADIUS, &paddle_rect(&p));
                match hit {
                    Some(nrm) => {
                        let newv = reflect(b.vel, &nrm);
                        return Ball { vel: newv, last_hit: p.id, ..b };
                    },
                    None => {},
                }
            }
        },
        None => {},
    }
    proof {
        assert(spec_paddle_hit(b, *paddle) is None);
    }
    let m = walls.len();
    let mut j: usize = 0;
    while j < m
        invariant
            0 <= j <= m,
            m == walls@.len(),
            ball_wf(b),
            bricks@ == old(bricks)@,
            forall|i: int| 0 <= i < old(bricks)@.len() ==> brick_wf(#[trigger] old(bricks)@[i]),
            first_brick_hit(b, old(bricks)@, 0) is None,
            spec_paddle_hit(b, *paddle) is None,
            forall|i: int| 0 <= i < walls@.len() ==> wall_wf(#[trigger] walls@[i]),
            forall|k: int|
                0 <= k < j ==> !((#[trigger] walls@[k]).id != b.last_hit && spec_contact_normal(
                    b.pos,
                    BALL_RADIUS,
                    walls@[k].rect,
                ) is Some),
        decreases m - j,
    {
        let wl = walls[j];
        if wl.id != b.last_hit {
            let hit = contact_normal(b.pos, BALL_RADIUS, &wl.rect);
            match hit {
                Some(nrm) => {
                    proof {
                        lemma_first_wall_hit_skip(b, walls@, j as int);
                        assert(first_wall_hit(b, walls@, 0) == Some((j as int, nrm)));
                    }
                    let newv = reflect(b.vel, &nrm);
                    return Ball { vel: newv, last_hit: wl.id, ..b };
                },
                None => {},
            }
        }
        j = j + 1;
    }
    proof {
        lemma_first_wall_hit_skip(b, walls@, m as int);
        assert(first_wall_hit(b, walls@, 0) is None);
    }
    b
}

/// Reads a paddle option by value.
fn copy_paddle(paddle: &Option<Paddle>) -> (res: Option<Paddle>)
    ensures
        res == *paddle,
{
    match paddle {
        Some(p) => Some(*p),
        None => None,
    }
}

/// The paddle's collider rectangle.
fn paddle_rect(p: &Paddle) -> (res: Rect)
    ensures
        res == spec_paddle_rect(*p),
{
    Rect { cx: p.x, cy: PADDLE_Y, hx: PADDLE_HALF_W, hy: PADDLE_HALF_H }
}

/// Collision resolution for every ball, in registration order: each ball
/// is resolved against the brick state the previous balls left behind.
pub open spec fn spec_resolve_balls(
    balls: Seq<Ball>,
    bricks: Seq<Brick>,
    paddle: Option<Paddle>,
    walls: Seq<Wall>,
    i: int,
) -> (Seq<Ball>, Seq<Brick>)
    decreases balls.len() - i,
{
    if i < 0 || i >= balls.len() {
        (balls, bricks)
    } else {
        let r = spec_resolve_ball(balls[i], bricks, paddle, walls);
        spec_resolve_balls(balls.update(i, r.0), r.1, paddle, walls, i + 1)
    }
}

/// The collision coordinator: resolves at most one contact per ball this
/// tick, in registration order, reflecting velocities and decaying hit
/// bricks, exactly as `spec_resolve_balls` describes.  Positions and
/// identities are untouched, no ball gains speed, and the bricks keep
/// their identities, rectangles and values.
pub fn check_for_collision(w: &mut World)
    requires
        wf(*old(w)),
    ensures
        wf(*final(w)),
        final(w).balls@ == spec_resolve_balls(
            old(w).balls@,
            old(w).bricks@,
            old(w).paddle,
            old(w).walls@,
            0,
        ).0,
        final(w).bricks@ == spec_resolve_balls(
            old(w).balls@,
            old(w).bricks@,
            old(w).paddle,
            old(w).walls@,
            0,
        ).1,
        final(w).balls@.len() == old(w).balls@.len(),
        forall|i: int|
            0 <= i < old(w).balls@.len() ==> (#[trigger] final(w).balls@[i]).pos == old(
                w,
            ).balls@[i].pos && final(w).balls@[i].id == old(w).balls@[i].id,
        final(w).bricks@.len() == old(w).bricks@.len(),
        sum_brick_values(final(w).bricks@) == sum_brick_values(old(w).bricks@),
        *final(w) == (World { balls: final(w).balls, bricks: final(w).bricks, ..*old(w) }),
{
    let ghost w0 = *w;
    let ghost balls0 = w.balls@;
    let ghost bricks0 = w.bricks@;
    let n = w.balls.len();
    let mut i: usize = 0;
    while i < n
        invariant
            0 <= i <= n,
            n == w.balls@.len(),
            w.balls@.len() == balls0.len(),
            wf(w0),
            balls0 == w0.balls@,
            bricks0 == w0.bricks@,
            spec_resolve_balls(w.balls@, w.bricks@, w0.paddle, w0.walls@, i as int)
                == spec_resolve_balls(balls0, bricks0, w0.paddle, w0.walls@, 0),
            forall|j: int| 0 <= j < n ==> ball_wf(#[trigger] w.balls@[j]),
            forall|j: int| 0 <= j < w.bricks@.len() ==> brick_wf(#[trigger] w.bricks@[j]),
            forall|j: int|
                0 <= j < n ==> (#[trigger] w.balls@[j]).pos == balls0[j].pos && w.balls@[j].id
                    == balls0[j].id,
            w.bricks@.len() == bricks0.len(),
            sum_brick_values(w.bricks@) == sum_brick_values(bricks0),
            w.paddle == w0.paddle,
            w.walls == w0.walls,
            w.score == w0.score,
            w.score_events == w0.score_events,
            w.phase == w0.phase,
            w.next_id == w0.next_id,
        decreases n - i,
    {
        let ghost balls_pre = w.balls@;
        let ghost bricks_pre = w.bricks@;
        let b = w.balls[i];
        let nb = resolve_ball(b, &mut w.bricks, &w.paddle, &w.walls);
        w.balls[i] = nb;
        proof {
            let r = spec_resolve_ball(balls_pre[i as int], bricks_pre, w0.paddle, w0.walls@);
            assert(nb == r.0 && w.bricks@ == r.1);
            assert(w.balls@ == balls_pre.update(i as int, nb));
            assert(spec_resolve_balls(balls_pre, bricks_pre, w0.paddle, w0.walls@, i as int)
                == spec_resolve_balls(w.balls@, w.bricks@, w0.paddle, w0.walls@, i + 1));
        }
        i = i + 1;
    }
    proof {
        assert(spec_resolve_balls(w.balls@, w.bricks@, w0.paddle, w0.walls@, n as int) == (
        w.balls@,
        w.bricks@,
        ));
    }
}

/// One whole gameplay tick, as a function of the starting world, the
/// paddle intent, and the elapsed milliseconds.  Outside `InGame` nothing
/// runs.  In `InGame`: a world whose last ball was already lost ends the
/// round at once; otherwise the paddle and balls move, collisions are
/// resolved, cleared bricks pay their value out through the event queue
/// and are removed, balls that left the playfield are removed, the queue
/// is drained into the score, and clearing the last brick ends the round
/// within this same tick.
pub open spec fn spec_tick(w: crate::world::WorldView, dir: i64, dt: int) -> crate::world::WorldView {
    if !(w.phase is InGame) {
        w
    } else if w.balls.len() == 0 {
        crate::world::WorldView { phase: GameState::EndGame, ..w }
    } else {
        let paddle1 = match w.paddle {
            Some(p) => Some(spec_paddle_step(Paddle { dir, ..p }, dt)),
            None => None,
        };
        let balls1 = Seq::new(w.balls.len(), |i: int| spec_move_ball(w.balls[i], dt));
        let r = spec_resolve_balls(balls1, w.bricks, paddle1, w.walls, 0);
        let bricks2 = spec_surviving_bricks(r.1);
        let events2 = w.score_events + spec_payout(r.1);
        let balls2 = spec_surviving_balls(r.0);
        let score3 = w.score + sum_events(events2);
        let phase4 = if bricks2.len() == 0 {
            GameState::EndGame
        } else {
            w.phase
        };
        crate::world::WorldView {
            phase: phase4,
            balls: balls2,
            bricks: bricks2,
            paddle: paddle1,
            walls: w.walls,
            score: score3,
            score_events: Seq::<u32>::empty(),
        }
    }
}

/// Runs one gameplay tick: the loss check, then paddle intent and
/// movement, ball integration, collision resolution, cleanup of cleared
/// bricks and lost balls, score draining, and the win check, gated on the
/// `InGame` phase.  The result is exactly `spec_tick` of the starting
/// world; granted score plus outstanding value is conserved; every
/// surviving ball is inside the playfield; a tick that clears the last
/// brick ends the round at once, and a tick that starts with no ball ends
/// the round before anything else runs.
pub fn tick(w: &mut World, paddle_dir: i64, dt: i64)
    requires
        wf(*old(w)),
        balls_in_play(*old(w)),
        -1 <= paddle_dir <= 1,
        0 <= dt <= DT_BOUND,
    ensures
        wf(*final(w)),
        balls_in_play(*final(w)),
        final(w)@ == spec_tick(old(w)@, paddle_dir, dt as int),
        final(w).next_id == old(w).next_id,
        final(w).score + sum_events(final(w).score_events@) + sum_brick_values(final(w).bricks@)
            == old(w).score + sum_events(old(w).score_events@) + sum_brick_values(old(w).bricks@),
        !(old(w).phase is InGame) ==> *final(w) == *old(w),
        old(w).phase is InGame && old(w).balls@.len() == 0 ==> *final(w) == (World {
            phase: GameState::EndGame,
            ..*old(w)
        }),
        old(w).phase is InGame && old(w).balls@.len() > 0 ==> final(w).score_events@.len() == 0,
        old(w).phase is InGame && old(w).balls@.len() > 0 && final(w).bricks@.len() == 0
            ==> final(w).phase is EndGame,
        final(w).phase != old(w).phase ==> crate::phase::transition_allowed(
            old(w).phase,
            final(w).phase,
        ),
{
    let ghost w0 = *w;
    match w.phase {
        GameState::InGame => {},
        _ => {
            proof {
                assert(final(w)@ =~= spec_tick(w0@, paddle_dir, dt as int));
            }
            return ;
        },
    }
    check_end_game(w);
    match w.phase {
        GameState::InGame => {},
        _ => {
            proof {
                assert(w@ =~= spec_tick(w0@, paddle_dir, dt as int));
            }
            return ;
        },
    }
    set_paddle_dir(w, paddle_dir);
    move_paddle(w, dt);
    let ghost w_paddle = *w;
    move_balls(w, dt);
    let ghost w_moved = *w;
    check_for_collision(w);
    let ghost w_resolved = *w;
    despawn_cleared_bricks(w);
    let ghost w_cleaned = *w;
    despawn_lost_balls(w);
    let ghost w_culled = *w;
    drain_score_events(w);
    check_win(w);
    proof {
        let balls1 = Seq::new(w0.balls@.len(), |i: int| spec_move_ball(w0.balls@[i], dt as int));
        assert(w_moved.balls@ =~= balls1);
        let paddle1 = match w0.paddle {
            Some(p) => Some(spec_paddle_step(Paddle { dir: paddle_dir, ..p }, dt as int)),
            None => None::<Paddle>,
        };
        assert(w_paddle.paddle == paddle1);
        let r = spec_resolve_balls(balls1, w0.bricks@, paddle1, w0.walls@, 0);
        assert(w_resolved.balls@ == r.0 && w_resolved.bricks@ == r.1);
        assert(w_cleaned.bricks@ == spec_surviving_bricks(r.1));
        assert(w_cleaned.score_events@ == w0.score_events@ + spec_payout(r.1));
        assert(w_culled.balls@ == spec_surviving_balls(r.0));
        assert(w@ =~= spec_tick(w0@, paddle_dir, dt as int));
    }
}

} // verus!
