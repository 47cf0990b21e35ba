//! The game world: a typed registry of the gameplay entities (balls,
//! bricks, paddle, walls), the running score with its event queue, and the
//! current phase, together with the phase-transition requests the menus
//! issue.
//!
//! Entities carry plain integer identities; registration order is the
//! order of the vectors, which makes collision iteration deterministic.

use vstd::prelude::*;
use crate::brick::{spec_tier_value, tier_value, BrickLevel};
use crate::geom::{dot, rect_wf, Rect, Vec2i};
use crate::phase::GameState;
use crate::physics::SPEED_SQ_BOUND;
use crate::{BOTTOM_WALL, LEFT_WALL, RIGHT_WALL, TOP_WALL};

verus! {

/// The identity no entity carries: a fresh ball has not bounced off
/// anything yet.
pub const NO_ENTITY: u64 = 0;

/// Radius of the ball, in millipixels.
pub const BALL_RADIUS: i64 = 10_000;

/// Where a fresh ball is placed when a round is prepared.
pub const BALL_START_X: i64 = 50_000;

pub const BALL_START_Y: i64 = -200_000;

/// Initial ball velocity, in millipixels per millisecond: equal parts
/// rightward and upward.
pub const BALL_START_VX: i64 = 283;

pub const BALL_START_VY: i64 = 283;

/// Half-extents of the paddle, in millipixels.
pub const PADDLE_HALF_W: i64 = 60_000;

pub const PADDLE_HALF_H: i64 = 10_000;

/// The paddle's fixed height in the playfield.
pub const PADDLE_Y: i64 = -340_000;

/// Paddle speed, in millipixels per millisecond.
pub const PADDLE_SPEED: i64 = 360;

/// Clearance kept between the paddle and each side wall.
pub const PADDLE_PADDING: i64 = 10_000;

/// Leftmost position the paddle's center may take: the left wall plus
/// half its thickness, half the paddle's width, and the padding.
pub const PADDLE_MIN_X: i64 = -285_000;

/// Rightmost position the paddle's center may take, mirroring
/// `PADDLE_MIN_X`.
pub const PADDLE_MAX_X: i64 = 285_000;

/// Half-extents of a brick, in millipixels.
pub const BRICK_HALF_W: i64 = 50_000;

pub const BRICK_HALF_H: i64 = 15_000;

/// The y coordinate of the topmost brick row's centers.
pub const FIRST_ROW_Y: i64 = 300_000;

/// Vertical spacing between brick-row centers.
pub const ROW_GAP: i64 = 60_000;

/// Horizontal spacing between brick-column centers.
pub const COL_GAP: i64 = 120_000;

/// The brick grid: four rows of five columns.
pub const BRICK_ROWS: usize = 4;

pub const BRICK_COLS: usize = 5;

pub const BRICK_COUNT: usize = 20;

/// The score the whole grid pays out: five bricks of each tier,
/// `5 * (5 + 3 + 2 + 1)`.
pub const GRID_TOTAL_VALUE: u32 = 55;

/// A ball: its position, velocity, and the identity of the last entity it
/// bounced off (`NO_ENTITY` when none), which the collision coordinator
/// skips to avoid resolving the same contact twice in a row.
#[derive(Clone, Copy, PartialEq, Eq, Structural, Debug)]
pub struct Ball {
    pub id: u64,
    pub pos: Vec2i,
    pub vel: Vec2i,
    pub last_hit: u64,
}

/// A brick: its collider rectangle, current durability tier, and the score
/// value fixed at creation from its initial tier.
#[derive(Clone, Copy, PartialEq, Eq, Structural, Debug)]
pub struct Brick {
    pub id: u64,
    pub rect: Rect,
    pub level: BrickLevel,
    pub value: u32,
}

/// The paddle: its horizontal center and current movement intent
/// (`-1`, `0` or `1`).
#[derive(Clone, Copy, PartialEq, Eq, Structural, Debug)]
pub struct Paddle {
    pub id: u64,
    pub x: i64,
    pub dir: i64,
}

/// A boundary wall: a static collider rectangle.
#[derive(Clone, Copy, PartialEq, Eq, Structural, Debug)]
pub struct Wall {
    pub id: u64,
    pub rect: Rect,
}

/// The whole game state threaded through the tick pipeline.
pub struct World {
    pub phase: GameState,
    pub next_id: u64,
    pub balls: Vec<Ball>,
    pub bricks: Vec<Brick>,
    pub paddle: Option<Paddle>,
    pub walls: Vec<Wall>,
    pub score: u32,
    pub score_events: Vec<u32>,
}

/// How far outside the playfield one tick of integration can carry a
/// ball: the playfield bound plus the largest speed times the largest
/// tick duration.
pub const FLIGHT_BOUND: i64 = 2_000_000_360_000;

/// A well-formed ball: bounded speed, and a position no farther out than
/// one tick of flight can reach.
pub open spec fn ball_wf(b: Ball) -> bool {
    &&& dot(b.vel, b.vel) <= SPEED_SQ_BOUND
    &&& -FLIGHT_BOUND <= b.pos.x <= FLIGHT_BOUND
    &&& -FLIGHT_BOUND <= b.pos.y <= FLIGHT_BOUND
}

/// A ball inside the playfield.  Balls satisfy this at every tick
/// boundary: a ball that leaves is despawned before the tick ends.
pub open spec fn ball_in_play(b: Ball) -> bool {
    &&& LEFT_WALL <= b.pos.x <= RIGHT_WALL
    &&& BOTTOM_WALL <= b.pos.y <= TOP_WALL
}

/// Every ball in the world is inside the playfield.
pub open spec fn balls_in_play(w: World) -> bool {
    forall|i: int| 0 <= i < w.balls@.len() ==> ball_in_play(#[trigger] w.balls@[i])
}

/// A well-formed brick: a collider rectangle the resolver accepts.
pub open spec fn brick_wf(bk: Brick) -> bool {
    rect_wf(bk.rect)
}

/// A well-formed paddle: center within its clamp bounds, intent a
/// direction.
pub open spec fn paddle_wf(p: Paddle) -> bool {
    &&& PADDLE_MIN_X <= p.x <= PADDLE_MAX_X
    &&& -1 <= p.dir <= 1
}

/// A well-formed wall: a collider rectangle the resolver accepts.
pub open spec fn wall_wf(w: Wall) -> bool {
    rect_wf(w.rect)
}

/// Sum of the queued score events.
pub open spec fn sum_events(s: Seq<u32>) -> int
    decreases s.len(),
{
    if s.len() == 0 {
        0
    } else {
        sum_events(s.drop_last()) + s.last()
    }
}

/// Sum of the fixed score values of a sequence of bricks.
pub open spec fn sum_brick_values(s: Seq<Brick>) -> int
    decreases s.len(),
{
    if s.len() == 0 {
        0
    } else {
        sum_brick_values(s.drop_last()) + s.last().value
    }
}

/// A sum of queued events is never negative.
pub proof fn lemma_sum_events_nonneg(s: Seq<u32>)
    ensures
        sum_events(s) >= 0,
    decreases s.len(),
{
    if s.len() > 0 {
        lemma_sum_events_nonneg(s.drop_last());
    }
}

/// A sum of brick values is never negative.
pub proof fn lemma_sum_brick_values_nonneg(s: Seq<Brick>)
    ensures
        sum_brick_values(s) >= 0,
    decreases s.len(),
{
    if s.len() > 0 {
        lemma_sum_brick_values_nonneg(s.drop_last());
    }
}

/// Appending one event adds its value to the sum.
pub proof fn lemma_sum_events_push(s: Seq<u32>, x: u32)
    ensures
        sum_events(s.push(x)) == sum_events(s) + x,
{
    assert(s.push(x).drop_last() =~= s);
}

/// Appending one brick adds its value to the sum.
pub proof fn lemma_sum_brick_values_push(s: Seq<Brick>, bk: Brick)
    ensures
        sum_brick_values(s.push(bk)) == sum_brick_values(s) + bk.value,
{
    assert(s.push(bk).drop_last() =~= s);
}

/// A well-formed world: every entity is well formed, and the score already
/// granted plus everything the remaining bricks and queued events could
/// still grant fits in the score counter.
pub open spec fn wf(w: World) -> bool {
    &&& forall|i: int| 0 <= i < w.balls@.len() ==> ball_wf(#[trigger] w.balls@[i])
    &&& forall|i: int| 0 <= i < w.bricks@.len() ==> brick_wf(#[trigger] w.bricks@[i])
    &&& forall|i: int| 0 <= i < w.walls@.len() ==> wall_wf(#[trigger] w.walls@[i])
    &&& (w.paddle matches Some(p) ==> paddle_wf(p))
    &&& w.score + sum_events(w.score_events@) + sum_brick_values(w.bricks@) <= u32::MAX
}

impl World {
    /// A fresh world: asset loading is the first phase, nothing is spawned
    /// and no score has been granted.
    pub fn new() -> (res: World)
        ensures
            wf(res),
            res.phase is LoadAssets,
            res.balls@.len() == 0,
            res.bricks@.len() == 0,
            res.paddle is None,
            res.walls@.len() == 0,
            res.score == 0,
            res.score_events@.len() == 0,
    {
        World {
            phase: crate::phase::initial_phase(),
            next_id: 1,
            balls: Vec::new(),
            bricks: Vec::new(),
            paddle: None,
            walls: Vec::new(),
            score: 0,
            score_events: Vec::new(),
        }
    }

    /// The phase the world is currently in; the only phase surface the
    /// menus read.
    pub fn current_phase(&self) -> (res: GameState)
        ensures
            res == self.phase,
    {
        self.phase
    }

    /// Asset loading has finished: the one automatic transition out of
    /// `LoadAssets`, into the main menu.
    pub fn assets_loaded(&mut self)
        requires
            wf(*old(self)),
            old(self).phase is LoadAssets,
        ensures
            wf(*final(self)),
            final(self).phase is MainMenu,
            crate::phase::transition_allowed(old(self).phase, final(self).phase),
            *final(self) == (World { phase: GameState::MainMenu, ..*old(self) }),
    {
        self.phase = GameState::MainMenu;
    }

    /// The pause control: toggles `InGame` and `Paused`, does nothing in
    /// any other phase.
    pub fn toggle_pause(&mut self)
        requires
            wf(*old(self)),
        ensures
            wf(*final(self)),
            final(self).phase == crate::phase::spec_toggle_pause(old(self).phase),
            *final(self) == (World {
                phase: crate::phase::spec_toggle_pause(old(self).phase),
                ..*old(self)
            }),
    {
        match self.phase {
            GameState::InGame => {
                self.phase = GameState::Paused;
            },
            GameState::Paused => {
                self.phase = GameState::InGame;
            },
            _ => {},
        }
    }

    /// Despawns every gameplay entity: balls, bricks, paddle and walls,
    /// and drops any score events still queued.  Despawning an empty world
    /// is a no-op, not an error.
    fn despawn_gameplay_entities(&mut self)
        ensures
            final(self).balls@.len() == 0,
            final(self).bricks@.len() == 0,
            final(self).paddle is None,
            final(self).walls@.len() == 0,
            final(self).score_events@.len() == 0,
            final(self).phase == old(self).phase,
            final(self).score == old(self).score,
            final(self).next_id == old(self).next_id,
    {
        self.balls = Vec::new();
        self.bricks = Vec::new();
        self.paddle = None;
        self.walls = Vec::new();
        self.score_events = Vec::new();
    }

    /// The player returns to the main menu, from the pause menu or from
    /// the end-of-round menu; every gameplay entity is despawned.
    pub fn select_main_menu(&mut self)
        requires
            wf(*old(self)),
            old(self).phase is Paused || old(self).phase is EndGame,
        ensures
            wf(*final(self)),
            final(self).phase is MainMenu,
            crate::phase::transition_allowed(old(self).phase, final(self).phase),
            final(self).balls@.len() == 0,
            final(self).bricks@.len() == 0,
            final(self).paddle is None,
            final(self).walls@.len() == 0,
            final(self).score == old(self).score,
    {
        self.despawn_gameplay_entities();
        self.phase = GameState::MainMenu;
    }

    /// Finishes round preparation: once both a ball and a paddle exist the
    /// phase moves from `PrepGame` to `InGame`; with either still missing
    /// (or in any other phase) nothing changes.
    pub fn finish_prep(&mut self)
        requires
            wf(*old(self)),
        ensures
            wf(*final(self)),
            final(self).phase == if old(self).phase is PrepGame && old(self).balls@.len() > 0
                && old(self).paddle is Some {
                GameState::InGame
            } else {
                old(self).phase
            },
            *final(self) == (World { phase: final(self).phase, ..*old(self) }),
    {
        match self.phase {
            GameState::PrepGame => {
                if self.balls.len() > 0 && self.paddle.is_some() {
                    self.phase = GameState::InGame;
                }
            },
            _ => {},
        }
    }
}

/// The mathematical view of a world: sequences in place of the entity
/// vectors and an unbounded integer for the score.
#[verifier::ext_equal]
pub struct WorldView {
    pub phase: GameState,
    pub balls: Seq<Ball>,
    pub bricks: Seq<Brick>,
    pub paddle: Option<Paddle>,
    pub walls: Seq<Wall>,
    pub score: int,
    pub score_events: Seq<u32>,
}

impl View for World {
    type V = WorldView;

    open spec fn view(&self) -> WorldView {
        WorldView {
            phase: self.phase,
            balls: self.balls@,
            bricks: self.bricks@,
            paddle: self.paddle,
            walls: self.walls@,
            score: self.score as int,
            score_events: self.score_events@,
        }
    }
}

/// The tier of a brick row, counted from the top: the topmost row is the
/// sturdiest and each row below takes one hit fewer.
pub open spec fn brick_row_level(row: int) -> BrickLevel {
    if row == 0 {
        BrickLevel::Super
    } else if row == 1 {
        BrickLevel::High
    } else if row == 2 {
        BrickLevel::Mid
    } else {
        BrickLevel::Low
    }
}

/// The collider rectangle of grid slot `i` (row `i / 5`, column `i % 5`):
/// columns are centered around the middle of the playfield, rows hang from
/// `FIRST_ROW_Y` downward.
pub open spec fn brick_grid_rect(i: int) -> Rect {
    Rect {
        cx: (-240_000 + COL_GAP * (i % 5)) as i64,
        cy: (FIRST_ROW_Y - ROW_GAP * (i / 5)) as i64,
        hx: BRICK_HALF_W,
        hy: BRICK_HALF_H,
    }
}

/// The brick spawned into grid slot `i`: its identity follows the five
/// fixed entities, its tier comes from its row, and its score value is
/// fixed from that tier.
pub open spec fn spec_grid_brick(i: int) -> Brick {
    Brick {
        id: (6 + i) as u64,
        rect: brick_grid_rect(i),
        level: brick_row_level(i / 5),
        value: spec_tier_value(brick_row_level(i / 5)),
    }
}

/// The three boundary walls: left, right and top, each half a wall
/// thickness wide and spanning the playfield plus the walls' own
/// thickness.
pub open spec fn spec_wall_rect(i: int) -> Rect {
    if i == 0 {
        Rect { cx: LEFT_WALL, cy: 1_000, hx: 5_000, hy: 365_000 }
    } else if i == 1 {
        Rect { cx: RIGHT_WALL, cy: 0, hx: 5_000, hy: 365_000 }
    } else {
        Rect { cx: 0, cy: TOP_WALL, hx: 365_000, hy: 5_000 }
    }
}

/// Which boundary wall: the playfield is walled on the left, right and
/// top; the bottom stays open, and a ball that falls through it is lost.
#[derive(Clone, Copy, PartialEq, Eq, Structural, Debug)]
pub enum WallLocation {
    Left,
    Right,
    Top,
}

/// The index a wall location takes in a fresh round's wall registry.
pub open spec fn wall_index(loc: WallLocation) -> int {
    match loc {
        WallLocation::Left => 0,
        WallLocation::Right => 1,
        WallLocation::Top => 2,
    }
}

impl WallLocation {
    /// The wall's center position, in millipixels.
    pub fn position(&self) -> (res: Vec2i)
        ensures
            res.x == spec_wall_rect(wall_index(*self)).cx,
            res.y == spec_wall_rect(wall_index(*self)).cy,
    {
        match self {
            WallLocation::Left => Vec2i { x: LEFT_WALL, y: 1_000 },
            WallLocation::Right => Vec2i { x: RIGHT_WALL, y: 0 },
            WallLocation::Top => Vec2i { x: 0, y: TOP_WALL },
        }
    }

    /// The wall's full width and height, in millipixels: twice the
    /// half-extents of its collider rectangle.  The side walls span the
    /// playfield's height plus the wall thickness; the top wall spans its
    /// width likewise.
    pub fn size(&self) -> (res: Vec2i)
        ensures
            res.x == 2 * spec_wall_rect(wall_index(*self)).hx,
            res.y == 2 * spec_wall_rect(wall_index(*self)).hy,
    {
        match self {
            WallLocation::Left => Vec2i { x: 10_000, y: 730_000 },
            WallLocation::Right => Vec2i { x: 10_000, y: 730_000 },
            WallLocation::Top => Vec2i { x: 730_000, y: 10_000 },
        }
    }
}

/// The one ball a fresh round starts with.
pub open spec fn spec_start_ball() -> Ball {
    Ball {
        id: 5,
        pos: Vec2i { x: BALL_START_X, y: BALL_START_Y },
        vel: Vec2i { x: BALL_START_VX, y: BALL_START_VY },
        last_hit: NO_ENTITY,
    }
}

/// The paddle a fresh round starts with: centered, at rest.
pub open spec fn spec_start_paddle() -> Paddle {
    Paddle { id: 4, x: 0, dir: 0 }
}

/// The total value of the first `i` grid slots.
pub open spec fn grid_value_prefix(i: int) -> int
    decreases i,
{
    if i <= 0 {
        0
    } else {
        grid_value_prefix(i - 1) + spec_grid_brick(i - 1).value
    }
}

/// What entering `PrepGame` establishes: exactly one ball at its starting
/// position and velocity, exactly one paddle centered at rest, the three
/// boundary walls, the full brick grid of four rows by five columns with
/// tiers `Super`, `High`, `Mid`, `Low` from top to bottom, the score reset
/// to zero and no score event pending.
pub open spec fn round_ready(w: World) -> bool {
    &&& w.balls@.len() == 1 && w.balls@[0] == spec_start_ball()
    &&& w.paddle == Some(spec_start_paddle())
    &&& w.walls@.len() == 3
    &&& forall|i: int| 0 <= i < 3 ==> (#[trigger] w.walls@[i]).rect == spec_wall_rect(i)
    &&& w.bricks@.len() == BRICK_COUNT
    &&& forall|i: int|
        0 <= i < BRICK_COUNT as int ==> (#[trigger] w.bricks@[i]) == spec_grid_brick(i)
    &&& w.score == 0
    &&& w.score_events@.len() == 0
}

/// Score accounting over a round.  `tick` conserves the granted score
/// plus the value still outstanding in bricks and queued events; a fresh
/// round starts with score zero and the full grid outstanding.  So once
/// the last brick is gone and the queue is drained, the score equals the
/// grid's total: every brick has paid out its initial tier's fixed value
/// exactly once over the round, never more, never less.
pub proof fn lemma_round_accounting(start: World, end: World)
    requires
        round_ready(start),
        sum_brick_values(start.bricks@) == GRID_TOTAL_VALUE,
        end.score + sum_events(end.score_events@) + sum_brick_values(end.bricks@) == start.score
            + sum_events(start.score_events@) + sum_brick_values(start.bricks@),
        end.bricks@.len() == 0,
        end.score_events@.len() == 0,
    ensures
        end.score == GRID_TOTAL_VALUE,
{
    assert(sum_events(start.score_events@) == 0);
    assert(sum_events(end.score_events@) == 0);
    assert(sum_brick_values(end.bricks@) == 0);
}

impl World {
    /// Prepares a fresh round: despawns whatever is left, resets the
    /// score, and spawns the walls, the paddle, the ball and the brick
    /// grid.
    fn spawn_round(&mut self)
        ensures
            final(self).phase == old(self).phase,
            round_ready(*final(self)),
            sum_brick_values(final(self).bricks@) == GRID_TOTAL_VALUE,
            wf(*final(self)),
            balls_in_play(*final(self)),
    {
        self.despawn_gameplay_entities();
        self.score = 0;
        self.next_id = 1;
        self.walls.push(
            Wall { id: 1, rect: Rect { cx: LEFT_WALL, cy: 1_000, hx: 5_000, hy: 365_000 } },
        );
        self.walls.push(
            Wall { id: 2, rect: Rect { cx: RIGHT_WALL, cy: 0, hx: 5_000, hy: 365_000 } },
        );
        self.walls.push(
            Wall { id: 3, rect: Rect { cx: 0, cy: TOP_WALL, hx: 365_000, hy: 5_000 } },
        );
        self.paddle = Some(Paddle { id: 4, x: 0, dir: 0 });
        self.balls.push(
            Ball {
                id: 5,
                pos: Vec2i { x: BALL_START_X, y: BALL_START_Y },
                vel: Vec2i { x: BALL_START_VX, y: BALL_START_VY },
                last_hit: NO_ENTITY,
            },
        );
        let ghost w_mid = *self;
        let mut i: usize = 0;
        while i < BRICK_COUNT
            invariant
                0 <= i <= BRICK_COUNT,
                self.bricks@.len() == i,
                forall|j: int| 0 <= j < i ==> (#[trigger] self.bricks@[j]) == spec_grid_brick(j),
                sum_brick_values(self.bricks@) == grid_value_prefix(i as int),
                self.balls == w_mid.balls,
                self.paddle == w_mid.paddle,
                self.walls == w_mid.walls,
                self.score == w_mid.score,
                self.score_events == w_mid.score_events,
                self.phase == w_mid.phase,
                self.next_id == w_mid.next_id,
            decreases BRICK_COUNT - i,
        {
            let row: usize = i / 5;
            let col: usize = i % 5;
            let level = if row == 0 {
                BrickLevel::Super
            } else if row == 1 {
                BrickLevel::High
            } else if row == 2 {
                BrickLevel::Mid
            } else {
                BrickLevel::Low
            };
            let value = tier_value(level);
            let brick = Brick {
                id: 6 + (i as u64),
                rect: Rect {
                    cx: -240_000 + COL_GAP * (col as i64),
                    cy: FIRST_ROW_Y - ROW_GAP * (row as i64),
                    hx: BRICK_HALF_W,
                    hy: BRICK_HALF_H,
                },
                level,
                value,
            };
            proof {
                assert(brick == spec_grid_brick(i as int));
                lemma_sum_brick_values_push(self.bricks@, brick);
            }
            self.bricks.push(brick);
            i = i + 1;
        }
        proof {
            reveal_with_fuel(grid_value_prefix, 21);
            assert(grid_value_prefix(BRICK_COUNT as int) == GRID_TOTAL_VALUE);
            assert forall|j: int| 0 <= j < self.bricks@.len() implies brick_wf(
                #[trigger] self.bricks@[j],
            ) by {
                assert(self.bricks@[j] == spec_grid_brick(j));
            }
            assert forall|j: int| 0 <= j < self.walls@.len() implies wall_wf(
                #[trigger] self.walls@[j],
            ) by {
                assert(self.walls@[j].rect == spec_wall_rect(j));
            }
            assert(self.balls@.len() == 1 && self.balls@[0] == spec_start_ball());
            assert(283int * 283int == 80_089int) by (nonlinear_arith);
            assert(dot(spec_start_ball().vel, spec_start_ball().vel) == 160_178);
            assert(ball_wf(self.balls@[0]));
            assert(sum_events(self.score_events@) == 0);
        }
    }

    /// The player selects play in the main menu: the phase moves to
    /// `PrepGame` and a fresh round is spawned.
    pub fn select_play(&mut self)
        requires
            wf(*old(self)),
            old(self).phase is MainMenu,
        ensures
            wf(*final(self)),
            final(self).phase is PrepGame,
            crate::phase::transition_allowed(old(self).phase, final(self).phase),
            round_ready(*final(self)),
            sum_brick_values(final(self).bricks@) == GRID_TOTAL_VALUE,
            balls_in_play(*final(self)),
    {
        self.phase = GameState::PrepGame;
        self.spawn_round();
    }

    /// The player selects restart in the end-of-round menu: the phase
    /// moves back to `PrepGame` and a fresh round is spawned.
    pub fn select_restart(&mut self)
        requires
            wf(*old(self)),
            old(self).phase is EndGame,
        ensures
            wf(*final(self)),
            final(self).phase is PrepGame,
            crate::phase::transition_allowed(old(self).phase, final(self).phase),
            round_ready(*final(self)),
            sum_brick_values(final(self).bricks@) == GRID_TOTAL_VALUE,
            balls_in_play(*final(self)),
    {
        self.phase = GameState::PrepGame;
        self.spawn_round();
    }
}

} // verus!
