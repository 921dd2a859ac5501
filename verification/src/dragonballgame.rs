//! The per-session arcade simulation: fireballs spawn on the left, fly toward
//! the right edge, and are either extinguished by the player's water spray or
//! breach the boundary and end the game.
//!
//! All geometry is in fixed-point milli-units: one canvas unit is `SCALE`
//! model units, so the 800x600 canvas is 800_000 x 600_000. Velocities are
//! milli-units per tick. The spray cone test compares slopes: a projectile at
//! offset (dx, dy) from the defense is inside the half-angle of 0.5 radians
//! exactly when |dy| / -dx < tan(0.5), rendered as the fixed ratio
//! `SPRAY_TAN_NUM / SPRAY_TAN_DEN`.

use vstd::prelude::*;

use vstd::pervasive::VecAdditionalExecFns;

use crate::numeric::{isqrt, lemma_square_bound, sqrt_floor};

verus! {

/// Model units per canvas unit.
pub const SCALE: i64 = 1000;

pub const CANVAS_WIDTH: i64 = 800 * 1000;

pub const CANVAS_HEIGHT: i64 = 600 * 1000;

/// Distance of the defense line from the right edge.
pub const PLAYER_X_OFFSET: i64 = 50 * 1000;

/// Spawn x position: distance of the dragon from the left edge.
pub const DRAGON_X_OFFSET: i64 = 50 * 1000;

/// The defense line; a fireball past this x breaches.
pub const BOUNDARY_X: i64 = CANVAS_WIDTH - PLAYER_X_OFFSET;

/// Horizontal run from the spawn point to the aim line.
pub const AIM_DX: i64 = BOUNDARY_X - DRAGON_X_OFFSET;

pub const FIREBALL_SPEED_BASE: i64 = 3 * 1000;

/// Speed gained per point of score (0.1 canvas units per tick per point).
pub const DIFFICULTY_STEP: i64 = 100;

pub const WATER_SPRAY_RANGE: i64 = 300 * 1000;

/// Numerator and denominator of tan(0.5 rad), the spray half-angle slope.
pub const SPRAY_TAN_NUM: i64 = 5463;

pub const SPRAY_TAN_DEN: i64 = 10000;

/// Fade countdown start (1.0) and per-tick decrement (0.05).
pub const EXTINGUISH_FULL: i64 = 1000;

pub const EXTINGUISH_STEP: i64 = 50;

/// Score reward for each extinguished fireball.
pub const HIT_REWARD: u64 = 10;

/// Spawn chance per tick is one in `SPAWN_ODDS` (2%).
pub const SPAWN_ODDS: i64 = 50;

/// Vertical band the aim point is drawn from.
pub const TARGET_Y_MIN: i64 = 50 * 1000;

pub const TARGET_Y_MAX: i64 = CANVAS_HEIGHT - 50 * 1000;

/// Vertical band the spawn point is drawn from.
pub const START_Y_MIN: i64 = 100 * 1000;

pub const START_Y_MAX: i64 = CANVAS_HEIGHT - 100 * 1000;

/// Cap on the per-session fireball counter, forced by fixed-width arithmetic:
/// it keeps every derived speed and coordinate far inside `i64`. At 60 ticks
/// per second it is many thousands of years of play.
pub const ID_LIMIT: u64 = 0x4000000000000;

/// Largest speed any fireball can ever be given.
pub const SPEED_LIMIT: i64 = FIREBALL_SPEED_BASE + 1000 * 0x4000000000000;

/// Slack of a fireball's |y| over its x; spawn geometry establishes it and
/// each step preserves it, bounding every live coordinate.
pub const Y_SLACK: i64 = 550 * 1000;

#[derive(Clone, Copy, Debug, PartialEq, Eq, Structural)]
pub enum FireballState {
    Active,
    Extinguishing,
}

#[derive(Clone, Copy, Debug, PartialEq, Eq, Structural)]
pub struct Fireball {
    pub id: u64,
    pub x: i64,
    pub y: i64,
    pub vx: i64,
    pub vy: i64,
    pub state: FireballState,
    /// Fade countdown, `EXTINGUISH_FULL` down to 0; meaningful while
    /// extinguishing.
    pub extinguish_timer: i64,
}

#[derive(Clone, Copy, Debug, PartialEq, Eq, Structural)]
pub struct Player {
    pub y: i64,
}

/// The random draws a spawning tick consumes: the fireball's start height and
/// the height it aims at on the defense line.
#[derive(Clone, Copy, Debug, PartialEq, Eq, Structural)]
pub struct SpawnSeed {
    pub start_y: i64,
    pub target_y: i64,
}

#[derive(Clone, Debug)]
pub struct GameState {
    pub score: u64,
    pub game_over: bool,
    pub fireballs: Vec<Fireball>,
    pub player: Player,
    pub fireball_id_counter: u64,
}

pub open spec fn seed_wf(sd: SpawnSeed) -> bool {
    &&& START_Y_MIN <= sd.start_y < START_Y_MAX
    &&& TARGET_Y_MIN <= sd.target_y < TARGET_Y_MAX
}

pub open spec fn seed_opt_wf(seed: Option<SpawnSeed>) -> bool {
    match seed {
        Option::Some(sd) => seed_wf(sd),
        Option::None => true,
    }
}

/// Per-fireball well-formedness: rightward motion, bounded speed, vertical
/// speed no larger than horizontal, coordinates tied to x, and a fade timer
/// consistent with the state.
pub open spec fn fireball_wf(f: Fireball) -> bool {
    &&& 1 <= f.vx <= SPEED_LIMIT
    &&& -f.vx <= f.vy <= f.vx
    &&& DRAGON_X_OFFSET <= f.x <= BOUNDARY_X + SPEED_LIMIT
    &&& -(f.x + Y_SLACK) <= f.y <= f.x + Y_SLACK
    &&& match f.state {
        FireballState::Active => f.extinguish_timer == EXTINGUISH_FULL,
        FireballState::Extinguishing => 0 < f.extinguish_timer <= EXTINGUISH_FULL,
    }
}

/// Number of active fireballs among the first `k`.
pub open spec fn active_count(fs: Seq<Fireball>, k: int) -> int
    decreases k,
{
    if k <= 0 {
        0
    } else {
        active_count(fs, k - 1) + if fs[k - 1].state is Active {
            1int
        } else {
            0int
        }
    }
}

/// Fireball ids strictly increase along the collection (hence are unique).
pub open spec fn ids_increasing(fs: Seq<Fireball>) -> bool {
    forall|i: int, j: int|
        0 <= i < j < fs.len() ==> #[trigger] fs[i].id < #[trigger] fs[j].id
}

/// All ids in the collection are at most `b`.
pub open spec fn ids_at_most(fs: Seq<Fireball>, b: u64) -> bool {
    forall|i: int| 0 <= i < fs.len() ==> #[trigger] fs[i].id <= b
}

/// The mathematical model of a simulation state: the same data with the
/// fireball collection as a sequence.
#[verifier::ext_equal]
pub struct GameView {
    pub score: u64,
    pub game_over: bool,
    pub fireballs: Seq<Fireball>,
    pub player_y: i64,
    pub counter: u64,
}

impl View for GameState {
    type V = GameView;

    open spec fn view(&self) -> GameView {
        GameView {
            score: self.score,
            game_over: self.game_over,
            fireballs: self.fireballs@,
            player_y: self.player.y,
            counter: self.fireball_id_counter,
        }
    }
}

impl GameView {
    /// Well-formedness of the whole simulation state. The score/counter bound
    /// says every fireball ever spawned accounts for at most one reward, which
    /// both caps the score and keeps spawn speeds inside `i64`. While the game
    /// is running, no active fireball is past the boundary.
    pub open spec fn wf(self) -> bool {
        &&& 0 <= self.player_y <= CANVAS_HEIGHT
        &&& self.counter <= ID_LIMIT
        &&& self.score + HIT_REWARD * active_count(self.fireballs, self.fireballs.len() as int)
            <= HIT_REWARD * self.counter
        &&& forall|i: int|
            0 <= i < self.fireballs.len() ==> fireball_wf(#[trigger] self.fireballs[i])
        &&& !self.game_over ==> forall|i: int|
            0 <= i < self.fireballs.len() && (#[trigger] self.fireballs[i]).state is Active
                ==> self.fireballs[i].x <= BOUNDARY_X
        &&& ids_increasing(self.fireballs)
        &&& ids_at_most(self.fireballs, self.counter)
    }
}

impl GameState {
    pub open spec fn wf(self) -> bool {
        self@.wf()
    }
}

/// The player's position request clamped to the canvas.
pub open spec fn clamp_y(y: int) -> int {
    if y < 0 {
        0
    } else if y > CANVAS_HEIGHT {
        CANVAS_HEIGHT as int
    } else {
        y
    }
}

/// Whether a point is inside the leftward spray cone of the defense at
/// (`BOUNDARY_X`, `py`): strictly to the left, within range, and within the
/// half-angle slope.
pub open spec fn hit_by_spray(x: int, y: int, py: int) -> bool {
    let dx = x - BOUNDARY_X;
    let dy = y - py;
    &&& dx < 0
    &&& dx * dx + dy * dy < WATER_SPRAY_RANGE * WATER_SPRAY_RANGE
    &&& (if dy >= 0 {
        dy
    } else {
        -dy
    }) * SPRAY_TAN_DEN < (-dx) * SPRAY_TAN_NUM
}

/// The defense never strikes a point at or to the right of its own line,
/// however close or well aligned.
pub proof fn lemma_spray_directional(x: int, y: int, py: int)
    requires
        x - BOUNDARY_X >= 0,
    ensures
        !hit_by_spray(x, y, py),
{
}

impl GameState {
    pub fn new() -> (s: GameState)
        ensures
            s.wf(),
            s.score == 0,
            !s.game_over,
            s.fireballs@.len() == 0,
            s.player.y == CANVAS_HEIGHT / 2,
            s.fireball_id_counter == 0,
    {
        GameState {
            score: 0,
            game_over: false,
            fireballs: Vec::new(),
            player: Player { y: CANVAS_HEIGHT / 2 },
            fireball_id_counter: 0,
        }
    }

    /// Clamp the requested height to the canvas and store it; a finished game
    /// ignores the request.
    pub fn update_player_pos(&mut self, y: i64)
        requires
            old(self).wf(),
        ensures
            final(self).wf(),
            old(self).game_over ==> *final(self) == *old(self),
            !old(self).game_over ==> *final(self) == (GameState {
                player: Player { y: clamp_y(y as int) as i64 },
                ..*old(self)
            }),
            0 <= final(self).player.y <= CANVAS_HEIGHT,
    {
        if !self.game_over {
            let clamped: i64 = if y < 0 {
                0
            } else if y > CANVAS_HEIGHT {
                CANVAS_HEIGHT
            } else {
                y
            };
            self.player.y = clamped;
        }
    }
}

/// Coordinate magnitude within which the spray test is free of overflow; far
/// above anything a well-formed state can hold.
pub const GEOM_LIMIT: i64 = 0x2000000000000000;

/// A bound on a value gives a bound on its square.
proof fn lemma_abs_square_bound(v: int, b: int)
    requires
        -b <= v <= b,
        0 <= b,
    ensures
        0 <= v * v <= b * b,
{
    assert(0 <= v * v <= b * b) by (nonlinear_arith)
        requires -b <= v <= b, 0 <= b;
}

/// Speed a fireball spawned at this score gets: difficulty grows with score.
pub open spec fn spawn_speed(score: u64) -> int {
    FIREBALL_SPEED_BASE + score * DIFFICULTY_STEP
}

/// Length of the aim vector from the spawn point to the target point,
/// rounded down.
pub open spec fn spawn_dist(sd: SpawnSeed) -> int {
    let dy = sd.target_y - sd.start_y;
    sqrt_floor((AIM_DX * AIM_DX + dy * dy) as nat) as int
}

/// Horizontal velocity at spawn: the aim run, normalized and scaled.
pub open spec fn spawn_vx(score: u64, sd: SpawnSeed) -> int {
    AIM_DX * spawn_speed(score) / spawn_dist(sd)
}

/// Magnitude of the vertical velocity at spawn.
pub open spec fn spawn_vy_mag(score: u64, sd: SpawnSeed) -> int {
    let dy = sd.target_y - sd.start_y;
    (if dy >= 0 {
        dy
    } else {
        -dy
    }) * spawn_speed(score) / spawn_dist(sd)
}

/// The fireball a spawning tick creates, before its first movement step.
pub open spec fn spawned(score: u64, id: u64, sd: SpawnSeed) -> Fireball {
    Fireball {
        id: id,
        x: DRAGON_X_OFFSET,
        y: sd.start_y,
        vx: spawn_vx(score, sd) as i64,
        vy: (if sd.target_y - sd.start_y >= 0 {
            spawn_vy_mag(score, sd)
        } else {
            -spawn_vy_mag(score, sd)
        }) as i64,
        state: FireballState::Active,
        extinguish_timer: EXTINGUISH_FULL,
    }
}

/// Squaring preserves order on non-negative values.
proof fn lemma_square_monotone(a: int, b: int)
    requires
        0 <= a <= b,
    ensures
        a * a <= b * b,
{
    assert(a * a <= b * b) by (nonlinear_arith)
        requires 0 <= a <= b;
}

/// Bounds of the spawn geometry: the aim distance is close to the aim run,
/// the velocity is rightward, no faster than the speed, and no steeper than
/// 45 degrees.
pub proof fn lemma_spawn_geometry(score: u64, sd: SpawnSeed)
    requires
        score <= HIT_REWARD * ID_LIMIT,
        seed_wf(sd),
    ensures
        AIM_DX <= spawn_dist(sd) <= 832165,
        FIREBALL_SPEED_BASE <= spawn_speed(score) <= SPEED_LIMIT,
        1 <= spawn_vx(score, sd) <= spawn_speed(score),
        0 <= spawn_vy_mag(score, sd) <= spawn_vx(score, sd),
{
    let dy = sd.target_y - sd.start_y;
    let ady = if dy >= 0 {
        dy
    } else {
        -dy
    };
    let d2 = AIM_DX * AIM_DX + dy * dy;
    let speed = spawn_speed(score);
    assert(ady * ady == dy * dy) by (nonlinear_arith)
        requires dy >= 0 ==> ady == dy, dy < 0 ==> ady == -dy;
    assert(AIM_DX * AIM_DX == 490000000000int) by (nonlinear_arith)
        requires AIM_DX == 700000;
    assert(0 <= ady < 450000);
    lemma_abs_square_bound(ady, 450000);
    assert(450000int * 450000 == 202500000000int) by (nonlinear_arith);
    assert(490000000000int <= d2 <= 692500000000int);
    crate::numeric::lemma_sqrt_floor(d2 as nat);
    let dist = spawn_dist(sd);
    assert(dist == sqrt_floor(d2 as nat) as int);
    assert(dist * dist <= d2 < (dist + 1) * (dist + 1));
    // lower bound on the distance
    if dist < AIM_DX {
        lemma_square_monotone(dist + 1, AIM_DX as int);
        assert(AIM_DX * AIM_DX == 700000int * 700000) by (nonlinear_arith)
            requires AIM_DX == 700000;
        assert(false);
    }
    // upper bound on the distance
    assert(832166int * 832166 == 692500251556int) by (nonlinear_arith);
    lemma_square_bound(dist as nat, 832166nat);
    // speed bounds
    assert(speed <= SPEED_LIMIT);
    // vx is at most the speed
    vstd::arithmetic::div_mod::lemma_div_is_ordered_by_denominator(
        AIM_DX * speed,
        AIM_DX as int,
        dist,
    );
    vstd::arithmetic::div_mod::lemma_div_multiples_vanish(speed, AIM_DX as int);
    assert(AIM_DX * speed / dist <= speed);
    // vx is at least one
    assert(AIM_DX * speed >= 700000int * 3000) by (nonlinear_arith)
        requires AIM_DX == 700000, speed >= 3000;
    vstd::arithmetic::div_mod::lemma_div_is_ordered(dist, AIM_DX * speed, dist);
    vstd::arithmetic::div_mod::lemma_div_by_self(dist);
    assert(spawn_vx(score, sd) >= 1);
    // |vy| is at most vx
    assert(ady * speed <= AIM_DX * speed) by (nonlinear_arith)
        requires 0 <= ady <= AIM_DX, speed >= 0;
    assert(ady * speed >= 0) by (nonlinear_arith)
        requires ady >= 0, speed >= 0;
    vstd::arithmetic::div_mod::lemma_div_is_ordered(ady * speed, AIM_DX * speed, dist);
    vstd::arithmetic::div_mod::lemma_div_pos_is_pos(ady * speed, dist);
}

/// The fireball a spawn produces is well formed.
pub proof fn lemma_spawned_wf(score: u64, id: u64, sd: SpawnSeed)
    requires
        score <= HIT_REWARD * ID_LIMIT,
        seed_wf(sd),
    ensures
        fireball_wf(spawned(score, id, sd)),
        spawned(score, id, sd).id == id,
        spawned(score, id, sd).state is Active,
        spawned(score, id, sd).x == DRAGON_X_OFFSET,
        spawned(score, id, sd).y == sd.start_y,
{
    lemma_spawn_geometry(score, sd);
}

/// Build the fireball for a spawning tick: aim from the start point at the
/// target point on the defense line, normalize by the integer distance and
/// scale by the score-coupled speed. The degenerate-aim guard returns nothing;
/// the spawn geometry provably never takes it.
pub fn spawn_fireball(score: u64, id: u64, sd: SpawnSeed) -> (r: Option<Fireball>)
    requires
        score <= HIT_REWARD * ID_LIMIT,
        seed_wf(sd),
    ensures
        r == Option::Some(spawned(score, id, sd)),
{
    proof {
        lemma_spawn_geometry(score, sd);
    }
    let dy: i64 = sd.target_y - sd.start_y;
    let ady: u128 = if dy >= 0 {
        dy as u128
    } else {
        (-dy) as u128
    };
    proof {
        assert((ady as int) * (ady as int) == (dy as int) * (dy as int)) by (nonlinear_arith)
            requires ady as int == (if dy as int >= 0 { dy as int } else { -(dy as int) });
        lemma_abs_square_bound(ady as int, 450000);
        assert(450000int * 450000 == 202500000000int) by (nonlinear_arith);
        assert((AIM_DX as int) * (AIM_DX as int) == 490000000000int) by (nonlinear_arith)
            requires AIM_DX == 700000;
    }
    let d2: u128 = (AIM_DX as u128) * (AIM_DX as u128) + ady * ady;
    let dist: u128 = isqrt(d2);
    if dist == 0 {
        return Option::None;
    }
    let speed: u128 = (FIREBALL_SPEED_BASE as u128) + (score as u128) * (DIFFICULTY_STEP as u128);
    proof {
        assert(speed == spawn_speed(score));
        assert(dist == spawn_dist(sd));
        assert(0 <= (AIM_DX as int) * (speed as int) <= 700000int * (SPEED_LIMIT as int))
            by (nonlinear_arith)
            requires AIM_DX == 700000, 0 <= speed as int <= SPEED_LIMIT as int;
        assert(0 <= (ady as int) * (speed as int) <= 700000int * (SPEED_LIMIT as int))
            by (nonlinear_arith)
            requires 0 <= ady as int <= 700000, 0 <= speed as int <= SPEED_LIMIT as int;
    }
    let vx: u128 = (AIM_DX as u128) * speed / dist;
    let vymag: u128 = ady * speed / dist;
    let vy: i64 = if dy >= 0 {
        vymag as i64
    } else {
        -(vymag as i64)
    };
    Option::Some(
        Fireball {
            id: id,
            x: DRAGON_X_OFFSET,
            y: sd.start_y,
            vx: vx as i64,
            vy: vy,
            state: FireballState::Active,
            extinguish_timer: EXTINGUISH_FULL,
        },
    )
}

/// Runtime spray-cone test, exactly `hit_by_spray`.
fn spray_hits(x: i64, y: i64, py: i64) -> (r: bool)
    requires
        -GEOM_LIMIT <= x <= GEOM_LIMIT,
        -GEOM_LIMIT <= y <= GEOM_LIMIT,
        0 <= py <= CANVAS_HEIGHT,
    ensures
        r == hit_by_spray(x as int, y as int, py as int),
{
    let dx: i64 = x - BOUNDARY_X;
    if dx >= 0 {
        return false;
    }
    let dy: i64 = y - py;
    proof {
        lemma_abs_square_bound(dx as int, 0x2100000000000000);
        lemma_abs_square_bound(dy as int, 0x2100000000000000);
    }
    let dx2: i128 = (dx as i128) * (dx as i128);
    let dy2: i128 = (dy as i128) * (dy as i128);
    proof {
        assert((WATER_SPRAY_RANGE as int) * (WATER_SPRAY_RANGE as int) == 90000000000int)
            by (nonlinear_arith)
            requires WATER_SPRAY_RANGE == 300000;
    }
    if dx2 + dy2 >= (WATER_SPRAY_RANGE as i128) * (WATER_SPRAY_RANGE as i128) {
        return false;
    }
    let ady: i128 = if dy >= 0 {
        dy as i128
    } else {
        -(dy as i128)
    };
    proof {
        assert(0 <= ady * (SPRAY_TAN_DEN as int) <= 0x2100000000000000int * 10000)
            by (nonlinear_arith)
            requires 0 <= ady <= 0x2100000000000000int, SPRAY_TAN_DEN == 10000;
        assert(0 <= (-(dx as int)) * (SPRAY_TAN_NUM as int) <= 0x2100000000000000int * 5463)
            by (nonlinear_arith)
            requires 0 < -(dx as int) <= 0x2100000000000000int, SPRAY_TAN_NUM == 5463;
    }
    ady * (SPRAY_TAN_DEN as i128) < (-(dx as i128)) * (SPRAY_TAN_NUM as i128)
}

/// One advance/collide/fade step of a single fireball, at player height `py`.
/// An extinguishing fireball only fades; an active one moves by its velocity
/// and turns extinguishing when the spray catches it at its new position.
pub open spec fn step_fireball(f: Fireball, py: int) -> Fireball {
    if f.state is Extinguishing {
        Fireball { extinguish_timer: (f.extinguish_timer - EXTINGUISH_STEP) as i64, ..f }
    } else {
        let moved = Fireball { x: (f.x + f.vx) as i64, y: (f.y + f.vy) as i64, ..f };
        if hit_by_spray(f.x + f.vx, f.y + f.vy, py) {
            Fireball { state: FireballState::Extinguishing, ..moved }
        } else {
            moved
        }
    }
}

/// An active fireball crosses the boundary on this step.
pub open spec fn breaches(f: Fireball) -> bool {
    f.state is Active && f.x + f.vx > BOUNDARY_X
}

/// An active fireball is caught by the spray at its new position this step.
pub open spec fn hit_in_step(f: Fireball, py: int) -> bool {
    f.state is Active && hit_by_spray(f.x + f.vx, f.y + f.vy, py)
}

/// Number of spray hits among the first `k` fireballs this step.
pub open spec fn hits_count(fs: Seq<Fireball>, py: int, k: int) -> int
    decreases k,
{
    if k <= 0 {
        0
    } else {
        hits_count(fs, py, k - 1) + if hit_in_step(fs[k - 1], py) {
            1int
        } else {
            0int
        }
    }
}

/// Some fireball among the first `k` breaches this step.
pub open spec fn breach_within(fs: Seq<Fireball>, k: int) -> bool {
    exists|j: int| 0 <= j < k && breaches(#[trigger] fs[j])
}

/// Garbage collection keeps a fireball unless it has finished fading.
pub open spec fn keeps(f: Fireball) -> bool {
    f.state is Active || f.extinguish_timer > 0
}

/// The first `k` fireballs with the fully faded ones removed, order kept.
pub open spec fn gc_prefix(fs: Seq<Fireball>, k: int) -> Seq<Fireball>
    decreases k,
{
    if k <= 0 {
        Seq::empty()
    } else {
        let rest = gc_prefix(fs, k - 1);
        if keeps(fs[k - 1]) {
            rest.push(fs[k - 1])
        } else {
            rest
        }
    }
}

/// The spawn phase of a tick: with a seed and a free id, push the new
/// fireball; without one, leave the state alone.
pub open spec fn spec_spawn(v: GameView, seed: Option<SpawnSeed>) -> GameView {
    match seed {
        Option::None => v,
        Option::Some(sd) => if v.counter < ID_LIMIT {
            GameView {
                counter: (v.counter + 1) as u64,
                fireballs: v.fireballs.push(spawned(v.score, (v.counter + 1) as u64, sd)),
                ..v
            }
        } else {
            v
        },
    }
}

/// A whole tick: nothing on a finished game; otherwise spawn, then advance
/// every fireball once (collecting rewards and breaches), then drop the
/// fully faded ones.
pub open spec fn spec_tick(v: GameView, seed: Option<SpawnSeed>) -> GameView {
    if v.game_over {
        v
    } else {
        let v1 = spec_spawn(v, seed);
        let py = v1.player_y as int;
        let n = v1.fireballs.len() as int;
        let stepped = v1.fireballs.map_values(|f: Fireball| step_fireball(f, py));
        GameView {
            score: (v1.score + HIT_REWARD * hits_count(v1.fireballs, py, n)) as u64,
            game_over: breach_within(v1.fireballs, n),
            fireballs: gc_prefix(stepped, n),
            player_y: v1.player_y,
            counter: v1.counter,
        }
    }
}

proof fn lemma_active_count_agree(fs: Seq<Fireball>, gs: Seq<Fireball>, k: int)
    requires
        forall|j: int| 0 <= j < k ==> fs[j] == gs[j],
    ensures
        active_count(fs, k) == active_count(gs, k),
    decreases k,
{
    if k > 0 {
        lemma_active_count_agree(fs, gs, k - 1);
    }
}

proof fn lemma_active_count_mono(fs: Seq<Fireball>, k1: int, k2: int)
    requires
        k1 <= k2,
    ensures
        active_count(fs, k1) <= active_count(fs, k2),
        0 <= active_count(fs, k2),
    decreases k2,
{
    if k2 > 0 && k1 < k2 {
        lemma_active_count_mono(fs, k1, k2 - 1);
    } else if k2 > 0 {
        lemma_active_count_mono(fs, 0, k2 - 1);
    }
}

proof fn lemma_hits_le_active(fs: Seq<Fireball>, py: int, k: int)
    ensures
        0 <= hits_count(fs, py, k) <= active_count(fs, k),
    decreases k,
{
    if k > 0 {
        lemma_hits_le_active(fs, py, k - 1);
    }
}

/// Stepping changes an active fireball into an extinguishing one exactly on a
/// hit, so the active count drops by the hit count.
proof fn lemma_active_stepped(fs: Seq<Fireball>, gs: Seq<Fireball>, py: int, k: int)
    requires
        forall|j: int| 0 <= j < k ==> gs[j] == step_fireball(#[trigger] fs[j], py),
    ensures
        active_count(gs, k) == active_count(fs, k) - hits_count(fs, py, k),
    decreases k,
{
    if k > 0 {
        lemma_active_stepped(fs, gs, py, k - 1);
    }
}

/// Every property that holds of the kept fireballs of a prefix holds of every
/// element of its garbage-collected form.
proof fn lemma_gc_all(fs: Seq<Fireball>, k: int, p: spec_fn(Fireball) -> bool)
    requires
        forall|j: int| 0 <= j < k && keeps(#[trigger] fs[j]) ==> p(fs[j]),
    ensures
        forall|m: int|
            0 <= m < gc_prefix(fs, k).len() ==> p(#[trigger] gc_prefix(fs, k)[m]),
    decreases k,
{
    if k > 0 {
        lemma_gc_all(fs, k - 1, p);
        let g = gc_prefix(fs, k);
        let rest = gc_prefix(fs, k - 1);
        if keeps(fs[k - 1]) {
            assert(g == rest.push(fs[k - 1]));
            assert forall|m: int| 0 <= m < g.len() implies p(g[m]) by {
                if m < rest.len() {
                    assert(g[m] == rest[m]);
                } else {
                    assert(g[m] == fs[k - 1]);
                }
            }
        }
    }
}

/// Garbage collection drops no active fireball.
proof fn lemma_gc_active(fs: Seq<Fireball>, k: int)
    ensures
        active_count(gc_prefix(fs, k), gc_prefix(fs, k).len() as int) == active_count(fs, k),
    decreases k,
{
    if k > 0 {
        lemma_gc_active(fs, k - 1);
        let rest = gc_prefix(fs, k - 1);
        if keeps(fs[k - 1]) {
            lemma_active_count_agree(rest.push(fs[k - 1]), rest, rest.len() as int);
        }
    }
}

/// The spawn phase preserves well-formedness and touches nothing but the
/// counter and the fireball collection, which at most gains the new fireball.
pub proof fn lemma_spec_spawn_wf(v: GameView, seed: Option<SpawnSeed>)
    requires
        v.wf(),
        seed_opt_wf(seed),
    ensures
        spec_spawn(v, seed).wf(),
        spec_spawn(v, seed).score == v.score,
        spec_spawn(v, seed).game_over == v.game_over,
        spec_spawn(v, seed).player_y == v.player_y,
        v.counter <= spec_spawn(v, seed).counter,
        v.fireballs.len() <= spec_spawn(v, seed).fireballs.len(),
        forall|i: int|
            0 <= i < v.fireballs.len() ==> #[trigger] spec_spawn(v, seed).fireballs[i]
                == v.fireballs[i],
{
    let n = v.fireballs.len() as int;
    lemma_active_count_mono(v.fireballs, 0, n);
    if let Option::Some(sd) = seed {
        if v.counter < ID_LIMIT {
            let id = (v.counter + 1) as u64;
            lemma_spawned_wf(v.score, id, sd);
            let f = spawned(v.score, id, sd);
            let fs1 = v.fireballs.push(f);
            lemma_active_count_agree(fs1, v.fireballs, n);
            assert(active_count(fs1, n + 1) == active_count(v.fireballs, n) + 1);
            assert(ids_increasing(fs1)) by {
                assert forall|i: int, j: int| 0 <= i < j < fs1.len() implies fs1[i].id
                    < fs1[j].id by {
                    if j == n {
                        assert(fs1[i] == v.fireballs[i]);
                    }
                }
            }
        }
    }
}

/// A whole tick preserves well-formedness.
pub proof fn lemma_spec_tick_wf(v: GameView, seed: Option<SpawnSeed>)
    requires
        v.wf(),
        seed_opt_wf(seed),
    ensures
        spec_tick(v, seed).wf(),
{
    if !v.game_over {
        lemma_spec_spawn_wf(v, seed);
        let v1 = spec_spawn(v, seed);
        let py = v1.player_y as int;
        let n = v1.fireballs.len() as int;
        let stepped = v1.fireballs.map_values(|f: Fireball| step_fireball(f, py));
        let over = breach_within(v1.fireballs, n);
        lemma_hits_le_active(v1.fireballs, py, n);
        lemma_active_count_mono(v1.fireballs, 0, n);
        lemma_active_stepped(v1.fireballs, stepped, py, n);
        lemma_gc_active(stepped, n);
        assert forall|j: int| 0 <= j < n implies fireball_wf(#[trigger] v1.fireballs[j])
            && stepped[j] == step_fireball(v1.fireballs[j], py) && stepped[j].id
            == v1.fireballs[j].id && (keeps(stepped[j]) ==> fireball_wf(stepped[j])) && (
        !over && stepped[j].state is Active ==> stepped[j].x <= BOUNDARY_X) by {
            let f = v1.fireballs[j];
            if f.state is Active {
                assert(f.x <= BOUNDARY_X);
                if !over {
                    assert(!breaches(f));
                }
            }
        }
        lemma_gc_all(stepped, n, |f: Fireball| fireball_wf(f));
        lemma_gc_all(stepped, n, |f: Fireball| f.id <= v1.counter);
        if !over {
            lemma_gc_all(
                stepped,
                n,
                |f: Fireball| f.state is Active ==> f.x <= BOUNDARY_X,
            );
        }
        lemma_gc_increasing(stepped, n);
    }
}

/// The score never decreases over a tick, whatever the spawn draws were.
pub proof fn lemma_tick_score_monotone(v: GameView, seed: Option<SpawnSeed>)
    requires
        v.wf(),
        seed_opt_wf(seed),
    ensures
        spec_tick(v, seed).score >= v.score,
{
    if !v.game_over {
        lemma_spec_spawn_wf(v, seed);
        let v1 = spec_spawn(v, seed);
        let py = v1.player_y as int;
        let n = v1.fireballs.len() as int;
        lemma_hits_le_active(v1.fireballs, py, n);
        lemma_active_count_mono(v1.fireballs, 0, n);
    }
}

/// A finished game is frozen: ticking it changes nothing at all.
pub proof fn lemma_tick_terminal_idempotent(v: GameView, seed: Option<SpawnSeed>)
    requires
        v.game_over,
    ensures
        spec_tick(v, seed) == v,
        spec_tick(v, seed).game_over,
{
}

/// The simulation after a whole run of ticks with the given spawn draws.
pub open spec fn run_ticks(v: GameView, seeds: Seq<Option<SpawnSeed>>) -> GameView
    decreases seeds.len(),
{
    if seeds.len() == 0 {
        v
    } else {
        run_ticks(spec_tick(v, seeds[0]), seeds.drop_first())
    }
}

pub open spec fn seeds_wf(seeds: Seq<Option<SpawnSeed>>) -> bool {
    forall|i: int| 0 <= i < seeds.len() ==> seed_opt_wf(#[trigger] seeds[i])
}

/// Across any sequence of ticks within one session: well-formedness is kept,
/// the score never decreases, and a finished game stays finished with its
/// whole state frozen.
pub proof fn lemma_run_ticks(v: GameView, seeds: Seq<Option<SpawnSeed>>)
    requires
        v.wf(),
        seeds_wf(seeds),
    ensures
        run_ticks(v, seeds).wf(),
        run_ticks(v, seeds).score >= v.score,
        v.game_over ==> run_ticks(v, seeds) == v,
    decreases seeds.len(),
{
    if seeds.len() > 0 {
        lemma_spec_tick_wf(v, seeds[0]);
        lemma_tick_score_monotone(v, seeds[0]);
        if v.game_over {
            lemma_tick_terminal_idempotent(v, seeds[0]);
        }
        assert(seeds_wf(seeds.drop_first())) by {
            assert forall|i: int| 0 <= i < seeds.drop_first().len() implies seed_opt_wf(
                seeds.drop_first()[i],
            ) by {
                assert(seeds.drop_first()[i] == seeds[i + 1]);
            }
        }
        lemma_run_ticks(spec_tick(v, seeds[0]), seeds.drop_first());
    }
}

/// The breach rule: any single active fireball that crosses the boundary on
/// this tick ends the game, whatever the other fireballs do.
pub proof fn lemma_tick_breach(v: GameView, seed: Option<SpawnSeed>, i: int)
    requires
        !v.game_over,
        0 <= i < v.fireballs.len(),
        v.fireballs[i].state is Active,
        v.fireballs[i].x + v.fireballs[i].vx > BOUNDARY_X,
    ensures
        spec_tick(v, seed).game_over,
{
    let v1 = spec_spawn(v, seed);
    assert(v1.fireballs[i] == v.fireballs[i]);
    assert(breaches(v1.fireballs[i]));
    assert(breach_within(v1.fireballs, v1.fireballs.len() as int));
}

/// Garbage collection keeps the strictly increasing id order.
proof fn lemma_gc_increasing(fs: Seq<Fireball>, k: int)
    requires
        k <= fs.len(),
        forall|i: int, j: int| 0 <= i < j < k ==> #[trigger] fs[i].id < #[trigger] fs[j].id,
    ensures
        ids_increasing(gc_prefix(fs, k)),
    decreases k,
{
    if k > 0 {
        lemma_gc_increasing(fs, k - 1);
        if keeps(fs[k - 1]) {
            lemma_gc_all(fs, k - 1, |f: Fireball| f.id < fs[k - 1].id);
        }
    }
}

impl GameState {
    /// One simulation tick driven by explicit spawn draws (`None` means no
    /// spawn this tick): deterministic, and exactly the mathematical step
    /// function `spec_tick`.
    pub fn tick_seeded(&mut self, seed: Option<SpawnSeed>)
        requires
            old(self).wf(),
            seed_opt_wf(seed),
        ensures
            final(self).wf(),
            final(self)@ == spec_tick(old(self)@, seed),
    {
        proof {
            lemma_spec_tick_wf(old(self)@, seed);
        }
        if self.game_over {
            return;
        }
        // Spawn phase.
        if let Option::Some(sd) = seed {
            if self.fireball_id_counter < ID_LIMIT {
                proof {
                    lemma_active_count_mono(self.fireballs@, 0, self.fireballs@.len() as int);
                }
                let id = self.fireball_id_counter + 1;
                if let Option::Some(f) = spawn_fireball(self.score, id, sd) {
                    self.fireball_id_counter = id;
                    self.fireballs.push(f);
                }
            }
        }
        let ghost v1 = spec_spawn(old(self)@, seed);
        proof {
            assert(self@ =~= v1);
            lemma_spec_spawn_wf(old(self)@, seed);
        }
        // Advance, collide with the boundary, and collide with the spray.
        let py = self.player.y;
        let ghost fs1 = self.fireballs@;
        let ghost n = fs1.len() as int;
        let mut over = false;
        let mut i: usize = 0;
        while i < self.fireballs.len()
            invariant
                v1.wf(),
                !v1.game_over,
                fs1 == v1.fireballs,
                n == fs1.len(),
                py == v1.player_y,
                self.fireballs@.len() == n,
                0 <= i <= n,
                forall|k: int|
                    0 <= k < i ==> self.fireballs@[k] == step_fireball(#[trigger] fs1[k], py as int),
                forall|k: int| i <= k < n ==> #[trigger] self.fireballs@[k] == fs1[k],
                over == breach_within(fs1, i as int),
                self.score == v1.score + HIT_REWARD * hits_count(fs1, py as int, i as int),
                !self.game_over,
                self.player.y == v1.player_y,
                self.fireball_id_counter == v1.counter,
            decreases n - i,
        {
            let f = self.fireballs[i];
            proof {
                assert(f == fs1[i as int]);
                assert(fireball_wf(fs1[i as int]));
                lemma_hits_le_active(fs1, py as int, i as int + 1);
                lemma_active_count_mono(fs1, i as int + 1, n);
            }
            if f.state == FireballState::Extinguishing {
                let nf = Fireball { extinguish_timer: f.extinguish_timer - EXTINGUISH_STEP, ..f };
                self.fireballs.set(i, nf);
                proof {
                    assert(nf == step_fireball(fs1[i as int], py as int));
                }
            } else {
                proof {
                    assert(fs1[i as int].state is Active);
                    assert(fs1[i as int].x <= BOUNDARY_X);
                }
                let nx = f.x + f.vx;
                let ny = f.y + f.vy;
                if nx > BOUNDARY_X {
                    over = true;
                }
                let hit = spray_hits(nx, ny, py);
                let nf = if hit {
                    Fireball { x: nx, y: ny, state: FireballState::Extinguishing, ..f }
                } else {
                    Fireball { x: nx, y: ny, ..f }
                };
                if hit {
                    self.score = self.score + HIT_REWARD;
                }
                self.fireballs.set(i, nf);
                proof {
                    assert(nf == step_fireball(fs1[i as int], py as int));
                }
            }
            proof {
                let fi = fs1[i as int];
                assert(breach_within(fs1, i as int + 1) == (breach_within(fs1, i as int)
                    || breaches(fi))) by {
                    if breach_within(fs1, i as int + 1) && !breaches(fi) {
                        let j = choose|j: int| 0 <= j < i + 1 && breaches(#[trigger] fs1[j]);
                        assert(0 <= j < i && breaches(fs1[j]));
                    }
                }
            }
            i += 1;
        }
        if over {
            self.game_over = true;
        }
        let ghost stepped = v1.fireballs.map_values(
            |f: Fireball| step_fireball(f, v1.player_y as int),
        );
        proof {
            assert(self.fireballs@ =~= stepped);
        }
        // Garbage-collect the fully faded fireballs.
        let mut kept: Vec<Fireball> = Vec::new();
        let mut j: usize = 0;
        while j < self.fireballs.len()
            invariant
                self.fireballs@ == stepped,
                0 <= j <= stepped.len(),
                kept@ == gc_prefix(stepped, j as int),
            decreases stepped.len() - j,
        {
            let f = self.fireballs[j];
            if f.state == FireballState::Active || f.extinguish_timer > 0 {
                kept.push(f);
            }
            j += 1;
        }
        self.fireballs = kept;
        proof {
            assert(self@ =~= spec_tick(old(self)@, seed));
        }
    }

    /// One clock tick: roll the 1-in-`SPAWN_ODDS` spawn chance and, on a
    /// spawn, the two height draws, then step the simulation. The contract
    /// states what holds for every outcome of the draws.
    pub fn tick(&mut self)
        requires
            old(self).wf(),
        ensures
            final(self).wf(),
            exists|seed: Option<SpawnSeed>|
                #![auto]
                seed_opt_wf(seed) && final(self)@ == spec_tick(old(self)@, seed),
            final(self).score >= old(self).score,
            final(self).player == old(self).player,
            old(self).game_over ==> final(self).game_over,
            old(self).game_over ==> final(self)@ == old(self)@,
    {
        let spawn_roll = crate::rng::rand_in_range(0, SPAWN_ODDS);
        let seed: Option<SpawnSeed> = if spawn_roll == 0 {
            let start_y = crate::rng::rand_in_range(START_Y_MIN, START_Y_MAX);
            let target_y = crate::rng::rand_in_range(TARGET_Y_MIN, TARGET_Y_MAX);
            Option::Some(SpawnSeed { start_y, target_y })
        } else {
            Option::None
        };
        proof {
            lemma_tick_score_monotone(old(self)@, seed);
            if old(self).game_over {
                lemma_tick_terminal_idempotent(old(self)@, seed);
            }
        }
        self.tick_seeded(seed);
        proof {
            assert(exists|s: Option<SpawnSeed>|
                #![auto]
                seed_opt_wf(s) && self@ == spec_tick(old(self)@, s)) by {
                assert(seed_opt_wf(seed) && self@ == spec_tick(old(self)@, seed));
            }
        }
    }
}

} // verus!
