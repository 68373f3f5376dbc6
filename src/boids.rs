use vstd::prelude::*;
use crate::fixed::{
    div_trunc, div_trunc_i64, lemma_component_bound, lemma_div_trunc_bound,
    lemma_div_trunc_factor, lemma_scaled_direction_length, norm_sq, scaled_direction,
    scaled_direction_spec, LENGTH_MAX,
};

verus! {

/// Fixed-point sub-units in one pixel.
pub const SUBUNITS_PER_PIXEL: i64 = 16384;

/// Half-extent of the world along x, in sub-units (180 pixels).
pub const BOUNDS_X: i64 = 2949120;

/// Half-extent of the world along y, in sub-units (320 pixels).
pub const BOUNDS_Y: i64 = 5242880;

/// Number of agents in the default flock.
pub const BOID_COUNT: usize = 8;

/// Largest speed after an update, in sub-units per second (150 pixels per second).
pub const MAX_SPEED: i64 = 2457600;

/// Smallest speed after an update, in sub-units per second (100 pixels per second).
pub const MIN_SPEED: i64 = 1638400;

/// `MAX_SPEED` squared.
pub const MAX_SPEED_SQUARED: i64 = 6039797760000;

/// `MIN_SPEED` squared.
pub const MIN_SPEED_SQUARED: i64 = 2684354560000;

/// The denominator of the interaction factors: a factor of `FACTOR_ONE` stands for 1.
pub const FACTOR_ONE: i64 = 1000000;

/// Largest interaction factor, over `FACTOR_ONE`: a weight of at most 1000.
pub const FACTOR_MAX: i64 = 1000000000;

/// `FACTOR_MAX` over `FACTOR_ONE`.
pub const FACTOR_RATIO_MAX: i64 = 1000;

/// Microseconds in a second: time steps are given in microseconds.
pub const MICROS_PER_SECOND: i64 = 1000000;

/// Largest magnitude of a position coordinate; motion beyond it saturates.
pub const POSITION_MAX: i64 = 68719476736;

/// Largest magnitude of a velocity coordinate in a well-formed flock.
pub const VELOCITY_MAX: i64 = 4194304;

/// Largest squared interaction radius.
pub const RADIUS_SQUARED_MAX: i64 = 1099511627776;

/// Largest magnitude of one interaction term: the root of `RADIUS_SQUARED_MAX`.
pub const RADIUS_MAX: i64 = 1048576;

/// Largest boundary nudge per update.
pub const TURN_MAX: i64 = 1048576;

/// Largest number of agents in a flock.
pub const MAX_BOIDS: usize = 1024;

/// Bound on the magnitude of one coordinate of the velocity change of one update.
pub const CHANGE_MAX: i64 = 1083179008000;

/// Bound on the magnitude of one coordinate of a velocity after the forces and the
/// boundary nudges: `VELOCITY_MAX + CHANGE_MAX + TURN_MAX`, within `COORD_MAX`.
pub const STEERED_MAX: i64 = 1083184250880;

/// Largest time step, in microseconds.
pub const DT_MAX: u64 = 4294967296;

/// A 2D vector in fixed point.
#[derive(Clone, Copy, Debug, PartialEq, Eq, Structural)]
pub struct Vec2i {
    pub x: i64,
    pub y: i64,
}

/// One agent: where it is and how fast it moves, per second.
#[derive(Clone, Copy, Debug, PartialEq, Eq, Structural)]
pub struct Boid {
    pub translation: Vec2i,
    pub velocity: Vec2i,
}

/// The tunable interaction parameters of a flock.
#[derive(Clone, Copy, Debug, PartialEq, Eq, Structural)]
pub struct FlockParams {
    /// Width of the band along each world edge in which agents are steered back.
    pub margin: Vec2i,
    /// Velocity nudge per update inside a margin band.
    pub turn_factor: i64,
    /// Weight of the separation force, over `FACTOR_ONE`, at most `FACTOR_MAX`.
    pub separation_factor: i64,
    /// Weight of the cohesion force, over `FACTOR_ONE`, at most `FACTOR_MAX`.
    pub cohesion_factor: i64,
    /// Weight of the alignment force, over `FACTOR_ONE`, at most `FACTOR_MAX`.
    pub alignment_factor: i64,
    /// Squared distance within which another agent counts for cohesion and alignment.
    pub view_radius_squared: i64,
    /// Squared distance within which another agent pushes this one away.
    pub separation_radius_squared: i64,
}

/// A flock: its agents and the parameters they interact by.
pub struct BoidMemory {
    pub boids: Vec<Boid>,
    pub params: FlockParams,
}

pub open spec fn vec_of(v: Vec2i) -> (int, int) {
    (v.x as int, v.y as int)
}

pub open spec fn params_wf(p: FlockParams) -> bool {
    &&& 0 <= p.margin.x <= POSITION_MAX
    &&& 0 <= p.margin.y <= POSITION_MAX
    &&& 0 <= p.turn_factor <= TURN_MAX
    &&& 0 <= p.separation_factor <= FACTOR_MAX
    &&& 0 <= p.cohesion_factor <= FACTOR_MAX
    &&& 0 <= p.alignment_factor <= FACTOR_MAX
    &&& 0 <= p.view_radius_squared <= RADIUS_SQUARED_MAX
    &&& 0 <= p.separation_radius_squared <= RADIUS_SQUARED_MAX
}

pub open spec fn boid_wf(b: Boid) -> bool {
    &&& -POSITION_MAX <= b.translation.x <= POSITION_MAX
    &&& -POSITION_MAX <= b.translation.y <= POSITION_MAX
    &&& -VELOCITY_MAX <= b.velocity.x <= VELOCITY_MAX
    &&& -VELOCITY_MAX <= b.velocity.y <= VELOCITY_MAX
}

pub open spec fn boids_wf(boids: Seq<Boid>) -> bool {
    &&& boids.len() <= MAX_BOIDS
    &&& forall|k: int| 0 <= k < boids.len() ==> boid_wf(#[trigger] boids[k])
}

/// Squared distance between two points.
pub open spec fn dist_sq(a: Vec2i, b: Vec2i) -> int {
    norm_sq(a.x - b.x, a.y - b.y)
}

/// What agent `i` has gathered from the agents before index `n`.
pub struct NeighborSums {
    /// Sum of `position_i - position_j` over the agents within the separation radius.
    pub sep_x: int,
    pub sep_y: int,
    /// Sum of `position_j - position_i` over the agents within the view radius.
    pub off_x: int,
    pub off_y: int,
    /// Sum of `velocity_j - velocity_i` over the agents within the view radius.
    pub vel_x: int,
    pub vel_y: int,
    /// Number of agents within the view radius.
    pub count: int,
}

pub open spec fn neighbor_sums(boids: Seq<Boid>, p: FlockParams, i: int, n: int) -> NeighborSums
    decreases n,
{
    if n <= 0 {
        NeighborSums { sep_x: 0, sep_y: 0, off_x: 0, off_y: 0, vel_x: 0, vel_y: 0, count: 0 }
    } else {
        let s = neighbor_sums(boids, p, i, n - 1);
        let j = n - 1;
        let a = boids[i];
        let b = boids[j];
        let d = dist_sq(a.translation, b.translation);
        if j == i {
            s
        } else {
            let close = d <= p.separation_radius_squared;
            let seen = d <= p.view_radius_squared;
            NeighborSums {
                sep_x: if close { s.sep_x + (a.translation.x - b.translation.x) } else { s.sep_x },
                sep_y: if close { s.sep_y + (a.translation.y - b.translation.y) } else { s.sep_y },
                off_x: if seen { s.off_x + (b.translation.x - a.translation.x) } else { s.off_x },
                off_y: if seen { s.off_y + (b.translation.y - a.translation.y) } else { s.off_y },
                vel_x: if seen { s.vel_x + (b.velocity.x - a.velocity.x) } else { s.vel_x },
                vel_y: if seen { s.vel_y + (b.velocity.y - a.velocity.y) } else { s.vel_y },
                count: if seen { s.count + 1 } else { s.count },
            }
        }
    }
}

/// The mean of `sum` over `count` items, weighted by `factor / FACTOR_ONE`; zero
/// when there is nothing to average.
pub open spec fn weighted_mean(sum: int, count: int, factor: int) -> int {
    if count > 0 {
        div_trunc(div_trunc(sum, count) * factor, FACTOR_ONE as int)
    } else {
        0
    }
}

/// The velocity change that the separation, cohesion and alignment rules give agent
/// `i`, computed from the flock as it stood before any agent changed.
pub open spec fn velocity_change(boids: Seq<Boid>, p: FlockParams, i: int) -> (int, int) {
    let s = neighbor_sums(boids, p, i, boids.len() as int);
    (
        div_trunc(s.sep_x * p.separation_factor, FACTOR_ONE as int)
            + weighted_mean(s.off_x, s.count, p.cohesion_factor as int)
            + weighted_mean(s.vel_x, s.count, p.alignment_factor as int),
        div_trunc(s.sep_y * p.separation_factor, FACTOR_ONE as int)
            + weighted_mean(s.off_y, s.count, p.cohesion_factor as int)
            + weighted_mean(s.vel_y, s.count, p.alignment_factor as int),
    )
}

proof fn lemma_difference_bound(a: Vec2i, b: Vec2i, r: int)
    requires
        0 <= r <= RADIUS_SQUARED_MAX,
        dist_sq(a, b) <= r,
    ensures
        -RADIUS_MAX <= a.x - b.x <= RADIUS_MAX,
        -RADIUS_MAX <= a.y - b.y <= RADIUS_MAX,
{
    assert(RADIUS_MAX * RADIUS_MAX == RADIUS_SQUARED_MAX);
    lemma_component_bound(a.x - b.x, a.y - b.y, RADIUS_MAX as int);
}

/// Each sum over the first `n` agents grows by at most one term's bound per agent.
proof fn lemma_neighbor_sums_bound(boids: Seq<Boid>, p: FlockParams, i: int, n: int)
    requires
        boids_wf(boids),
        params_wf(p),
        0 <= i < boids.len(),
        0 <= n <= boids.len(),
    ensures
        ({
            let s = neighbor_sums(boids, p, i, n);
            &&& -n * RADIUS_MAX <= s.sep_x <= n * RADIUS_MAX
            &&& -n * RADIUS_MAX <= s.sep_y <= n * RADIUS_MAX
            &&& -s.count * RADIUS_MAX <= s.off_x <= s.count * RADIUS_MAX
            &&& -s.count * RADIUS_MAX <= s.off_y <= s.count * RADIUS_MAX
            &&& -s.count * (2 * VELOCITY_MAX) <= s.vel_x <= s.count * (2 * VELOCITY_MAX)
            &&& -s.count * (2 * VELOCITY_MAX) <= s.vel_y <= s.count * (2 * VELOCITY_MAX)
            &&& 0 <= s.count <= n
        }),
    decreases n,
{
    if n > 0 {
        lemma_neighbor_sums_bound(boids, p, i, n - 1);
        let j = n - 1;
        let a = boids[i];
        let b = boids[j];
        assert(boid_wf(a) && boid_wf(b));
        let d = dist_sq(a.translation, b.translation);
        if d <= p.separation_radius_squared {
            lemma_difference_bound(a.translation, b.translation, p.separation_radius_squared as int);
        }
        if d <= p.view_radius_squared {
            lemma_difference_bound(a.translation, b.translation, p.view_radius_squared as int);
        }
    }
}

/// The velocity change of one agent stays small.
proof fn lemma_velocity_change_bound(boids: Seq<Boid>, p: FlockParams, i: int)
    requires
        boids_wf(boids),
        params_wf(p),
        0 <= i < boids.len(),
    ensures
        -CHANGE_MAX <= velocity_change(boids, p, i).0 <= CHANGE_MAX,
        -CHANGE_MAX <= velocity_change(boids, p, i).1 <= CHANGE_MAX,
{
    let n = boids.len() as int;
    let s = neighbor_sums(boids, p, i, n);
    lemma_neighbor_sums_bound(boids, p, i, n);
    let sep_max = MAX_BOIDS * RADIUS_MAX;
    assert(n * RADIUS_MAX <= sep_max);
    lemma_div_trunc_factor(s.sep_x, p.separation_factor as int, FACTOR_ONE as int, sep_max, FACTOR_RATIO_MAX as int);
    lemma_div_trunc_factor(s.sep_y, p.separation_factor as int, FACTOR_ONE as int, sep_max, FACTOR_RATIO_MAX as int);
    if s.count > 0 {
        assert(-(RADIUS_MAX as int) * s.count == -s.count * RADIUS_MAX) by (nonlinear_arith);
        assert((RADIUS_MAX as int) * s.count == s.count * RADIUS_MAX) by (nonlinear_arith);
        assert(-(2 * VELOCITY_MAX) * s.count == -s.count * (2 * VELOCITY_MAX)) by (nonlinear_arith);
        assert((2 * VELOCITY_MAX) * s.count == s.count * (2 * VELOCITY_MAX)) by (nonlinear_arith);
        lemma_div_trunc_bound(s.off_x, s.count, RADIUS_MAX as int);
        lemma_div_trunc_bound(s.off_y, s.count, RADIUS_MAX as int);
        lemma_div_trunc_bound(s.vel_x, s.count, 2 * VELOCITY_MAX);
        lemma_div_trunc_bound(s.vel_y, s.count, 2 * VELOCITY_MAX);
        lemma_div_trunc_factor(div_trunc(s.off_x, s.count), p.cohesion_factor as int, FACTOR_ONE as int, RADIUS_MAX as int, FACTOR_RATIO_MAX as int);
        lemma_div_trunc_factor(div_trunc(s.off_y, s.count), p.cohesion_factor as int, FACTOR_ONE as int, RADIUS_MAX as int, FACTOR_RATIO_MAX as int);
        lemma_div_trunc_factor(div_trunc(s.vel_x, s.count), p.alignment_factor as int, FACTOR_ONE as int, 2 * VELOCITY_MAX, FACTOR_RATIO_MAX as int);
        lemma_div_trunc_factor(div_trunc(s.vel_y, s.count), p.alignment_factor as int, FACTOR_ONE as int, 2 * VELOCITY_MAX, FACTOR_RATIO_MAX as int);
    }
}


/// Squared distance between two well-formed positions.
fn distance_squared(a: Vec2i, b: Vec2i) -> (r: i128)
    requires
        -POSITION_MAX <= a.x <= POSITION_MAX,
        -POSITION_MAX <= a.y <= POSITION_MAX,
        -POSITION_MAX <= b.x <= POSITION_MAX,
        -POSITION_MAX <= b.y <= POSITION_MAX,
    ensures
        r == dist_sq(a, b),
{
    let dx: i128 = (a.x - b.x) as i128;
    let dy: i128 = (a.y - b.y) as i128;
    assert(0 <= dx * dx <= 0x400_0000_0000_0000_0000 && 0 <= dy * dy <= 0x400_0000_0000_0000_0000)
        by (nonlinear_arith)
        requires
            -2 * POSITION_MAX <= dx <= 2 * POSITION_MAX,
            -2 * POSITION_MAX <= dy <= 2 * POSITION_MAX,
    ;
    dx * dx + dy * dy
}

/// Gathers what agent `i` sees of the other agents.
fn gather_neighbors(boids: &Vec<Boid>, p: &FlockParams, i: usize) -> (r: (i64, i64, i64, i64, i64, i64, i64))
    requires
        boids_wf(boids@),
        params_wf(*p),
        i < boids.len(),
    ensures
        ({
            let s = neighbor_sums(boids@, *p, i as int, boids.len() as int);
            s.sep_x == r.0 && s.sep_y == r.1 && s.off_x == r.2 && s.off_y == r.3
                && s.vel_x == r.4 && s.vel_y == r.5 && s.count == r.6
        }),
{
    let a = boids[i];
    let mut sep_x: i64 = 0;
    let mut sep_y: i64 = 0;
    let mut off_x: i64 = 0;
    let mut off_y: i64 = 0;
    let mut vel_x: i64 = 0;
    let mut vel_y: i64 = 0;
    let mut count: i64 = 0;
    let mut j: usize = 0;
    assert(boid_wf(boids@[i as int]));
    while j < boids.len()
        invariant
            boids_wf(boids@),
            params_wf(*p),
            i < boids.len(),
            j <= boids.len(),
            a == boids@[i as int],
            ({
                let s = neighbor_sums(boids@, *p, i as int, j as int);
                s.sep_x == sep_x && s.sep_y == sep_y && s.off_x == off_x && s.off_y == off_y
                    && s.vel_x == vel_x && s.vel_y == vel_y && s.count == count
            }),
        decreases boids.len() - j,
    {
        proof {
            lemma_neighbor_sums_bound(boids@, *p, i as int, j as int);
            lemma_neighbor_sums_bound(boids@, *p, i as int, j + 1);
            assert(j * RADIUS_MAX <= MAX_BOIDS * RADIUS_MAX);
            assert(count * (2 * VELOCITY_MAX) <= MAX_BOIDS * (2 * VELOCITY_MAX));
        }
        if j != i {
            let b = boids[j];
            assert(boid_wf(boids@[j as int]));
            let d = distance_squared(a.translation, b.translation);
            if d <= p.separation_radius_squared as i128 {
                sep_x = sep_x + (a.translation.x - b.translation.x);
                sep_y = sep_y + (a.translation.y - b.translation.y);
            }
            if d <= p.view_radius_squared as i128 {
                off_x = off_x + (b.translation.x - a.translation.x);
                off_y = off_y + (b.translation.y - a.translation.y);
                vel_x = vel_x + (b.velocity.x - a.velocity.x);
                vel_y = vel_y + (b.velocity.y - a.velocity.y);
                count = count + 1;
            }
        }
        j = j + 1;
    }
    (sep_x, sep_y, off_x, off_y, vel_x, vel_y, count)
}

/// `sum / count * factor / FACTOR_ONE`, rounding toward zero at each step; zero when
/// `count` is zero.
fn weighted_mean_exec(sum: i64, count: i64, factor: i64, bound: Ghost<int>) -> (r: i64)
    requires
        0 <= factor <= FACTOR_MAX,
        0 <= bound@ <= 0x1_0000_0000,
        0 <= count <= MAX_BOIDS,
        -count * bound@ <= sum <= count * bound@,
    ensures
        r == weighted_mean(sum as int, count as int, factor as int),
        -(FACTOR_RATIO_MAX * bound@) <= r <= FACTOR_RATIO_MAX * bound@,
{
    if count > 0 {
        proof {
            assert(-bound@ * count == -count * bound@) by (nonlinear_arith);
            assert(bound@ * count == count * bound@) by (nonlinear_arith);
            lemma_div_trunc_bound(sum as int, count as int, bound@);
            lemma_div_trunc_factor(div_trunc(sum as int, count as int), factor as int, FACTOR_ONE as int, bound@, FACTOR_RATIO_MAX as int);
        }
        assert(count * bound@ <= MAX_BOIDS * 0x1_0000_0000) by (nonlinear_arith)
            requires
                0 <= count <= MAX_BOIDS,
                0 <= bound@ <= 0x1_0000_0000,
        ;
        assert(-count * bound@ == -(count * bound@)) by (nonlinear_arith);
        let mean = div_trunc_i64(sum, count);
        assert(-0x1_0000_0000 * FACTOR_MAX <= mean * factor <= 0x1_0000_0000 * FACTOR_MAX) by (nonlinear_arith)
            requires
                -0x1_0000_0000 <= mean <= 0x1_0000_0000,
                0 <= factor <= FACTOR_MAX,
        ;
        div_trunc_i64(mean * factor, FACTOR_ONE)
    } else {
        0
    }
}

/// The velocity change of every agent, each computed from the flock as it stands, so
/// that no agent sees another's change of this update.
pub fn boid_forces(boids: &Vec<Boid>, p: &FlockParams) -> (r: Vec<Vec2i>)
    requires
        boids_wf(boids@),
        params_wf(*p),
    ensures
        r.len() == boids.len(),
        forall|k: int| 0 <= k < r.len() ==> vec_of(#[trigger] r@[k]) == velocity_change(boids@, *p, k),
{
    let mut changes: Vec<Vec2i> = Vec::new();
    let mut i: usize = 0;
    while i < boids.len()
        invariant
            boids_wf(boids@),
            params_wf(*p),
            i <= boids.len(),
            changes.len() == i,
            forall|k: int| 0 <= k < i ==> vec_of(#[trigger] changes@[k]) == velocity_change(boids@, *p, k),
        decreases boids.len() - i,
    {
        let s = gather_neighbors(boids, p, i);
        proof {
            lemma_neighbor_sums_bound(boids@, *p, i as int, boids.len() as int);
            lemma_velocity_change_bound(boids@, *p, i as int);
            let n = boids.len() as int;
            assert(n * RADIUS_MAX <= MAX_BOIDS * RADIUS_MAX);
            lemma_div_trunc_factor(s.0 as int, p.separation_factor as int, FACTOR_ONE as int, MAX_BOIDS * RADIUS_MAX, FACTOR_RATIO_MAX as int);
            lemma_div_trunc_factor(s.1 as int, p.separation_factor as int, FACTOR_ONE as int, MAX_BOIDS * RADIUS_MAX, FACTOR_RATIO_MAX as int);
        }
        assert(-(MAX_BOIDS * RADIUS_MAX) * FACTOR_MAX <= s.0 * p.separation_factor <= (MAX_BOIDS * RADIUS_MAX) * FACTOR_MAX
            && -(MAX_BOIDS * RADIUS_MAX) * FACTOR_MAX <= s.1 * p.separation_factor <= (MAX_BOIDS * RADIUS_MAX) * FACTOR_MAX)
            by (nonlinear_arith)
            requires
                -(MAX_BOIDS * RADIUS_MAX) <= s.0 <= MAX_BOIDS * RADIUS_MAX,
                -(MAX_BOIDS * RADIUS_MAX) <= s.1 <= MAX_BOIDS * RADIUS_MAX,
                0 <= p.separation_factor <= FACTOR_MAX,
        ;
        let sep_x = div_trunc_i64(s.0 * p.separation_factor, FACTOR_ONE);
        let sep_y = div_trunc_i64(s.1 * p.separation_factor, FACTOR_ONE);
        let coh_x = weighted_mean_exec(s.2, s.6, p.cohesion_factor, Ghost(RADIUS_MAX as int));
        let coh_y = weighted_mean_exec(s.3, s.6, p.cohesion_factor, Ghost(RADIUS_MAX as int));
        let ali_x = weighted_mean_exec(s.4, s.6, p.alignment_factor, Ghost(2 * VELOCITY_MAX));
        let ali_y = weighted_mean_exec(s.5, s.6, p.alignment_factor, Ghost(2 * VELOCITY_MAX));
        changes.push(Vec2i { x: sep_x + coh_x + ali_x, y: sep_y + coh_y + ali_y });
        i = i + 1;
    }
    changes
}

/// The velocity `v` of an agent at `pos` after the boundary nudges: on each axis,
/// `turn_factor` toward the interior inside a margin band (its inner edge included).
pub open spec fn steer(pos: (int, int), v: (int, int), p: FlockParams) -> (int, int) {
    (
        v.0 + (if pos.0 <= -BOUNDS_X + p.margin.x { p.turn_factor as int } else { 0 })
            - (if pos.0 >= BOUNDS_X - p.margin.x { p.turn_factor as int } else { 0 }),
        v.1 + (if pos.1 <= -BOUNDS_Y + p.margin.y { p.turn_factor as int } else { 0 })
            - (if pos.1 >= BOUNDS_Y - p.margin.y { p.turn_factor as int } else { 0 }),
    )
}

/// `v` with its speed brought into `[MIN_SPEED, MAX_SPEED]`: a vector that is too fast
/// or too slow is rescaled to the nearer limit, and a zero vector points along +x.
pub open spec fn clamp_speed_spec(v: (int, int)) -> (int, int) {
    let s = norm_sq(v.0, v.1);
    if s > MAX_SPEED * MAX_SPEED {
        scaled_direction_spec(v.0, v.1, MAX_SPEED as nat)
    } else if s < MIN_SPEED * MIN_SPEED {
        if v.0 == 0 && v.1 == 0 {
            (MIN_SPEED as int, 0)
        } else {
            scaled_direction_spec(v.0, v.1, MIN_SPEED as nat)
        }
    } else {
        v
    }
}

/// A coordinate held within `[-POSITION_MAX, POSITION_MAX]`.
pub open spec fn saturate(c: int) -> int {
    if c > POSITION_MAX {
        POSITION_MAX as int
    } else if c < -POSITION_MAX {
        -POSITION_MAX
    } else {
        c
    }
}

/// `pos` moved by `v` over `dt` microseconds.
pub open spec fn integrate(pos: (int, int), v: (int, int), dt: int) -> (int, int) {
    (
        saturate(pos.0 + div_trunc(v.0 * dt, MICROS_PER_SECOND as int)),
        saturate(pos.1 + div_trunc(v.1 * dt, MICROS_PER_SECOND as int)),
    )
}

/// The velocity of agent `k` after one update of the flock `boids`.
pub open spec fn next_velocity(boids: Seq<Boid>, p: FlockParams, k: int) -> (int, int) {
    let b = boids[k];
    let c = velocity_change(boids, p, k);
    clamp_speed_spec(steer(vec_of(b.translation), (b.velocity.x + c.0, b.velocity.y + c.1), p))
}

/// The position of agent `k` after one update of `dt` microseconds.
pub open spec fn next_translation(boids: Seq<Boid>, p: FlockParams, k: int, dt: int) -> (int, int) {
    integrate(vec_of(boids[k].translation), next_velocity(boids, p, k), dt)
}

/// The squared speed is at least `(MIN_SPEED - 2)^2` and below `(MAX_SPEED + 1)^2`: the
/// limits up to the rounding of fixed point, two sub-units (1.2e-4 pixels per second).
pub open spec fn speed_in_range(v: (int, int)) -> bool {
    (MIN_SPEED - 2) * (MIN_SPEED - 2) <= norm_sq(v.0, v.1) < (MAX_SPEED + 1) * (MAX_SPEED + 1)
}

/// Whatever the velocity, clamping brings its speed into range.
pub proof fn lemma_clamp_speed_in_range(v: (int, int))
    ensures
        speed_in_range(clamp_speed_spec(v)),
{
    let s = norm_sq(v.0, v.1);
    if s > MAX_SPEED * MAX_SPEED {
        lemma_scaled_direction_length(v.0, v.1, MAX_SPEED as nat);
        assert((MIN_SPEED - 2) * (MIN_SPEED - 2) <= (MAX_SPEED - 2) * (MAX_SPEED - 2));
    } else if s < MIN_SPEED * MIN_SPEED {
        if v.0 == 0 && v.1 == 0 {
            assert(norm_sq(MIN_SPEED as int, 0) == MIN_SPEED * MIN_SPEED);
        } else {
            lemma_scaled_direction_length(v.0, v.1, MIN_SPEED as nat);
            assert((MIN_SPEED + 1) * (MIN_SPEED + 1) <= (MAX_SPEED + 1) * (MAX_SPEED + 1));
        }
    }
}

/// Nudges velocity `v` of an agent at `pos` back toward the interior of the world.
fn avoid_bounds(pos: Vec2i, v: Vec2i, p: &FlockParams) -> (r: Vec2i)
    requires
        params_wf(*p),
        -POSITION_MAX <= pos.x <= POSITION_MAX,
        -POSITION_MAX <= pos.y <= POSITION_MAX,
        -(VELOCITY_MAX + CHANGE_MAX) <= v.x <= VELOCITY_MAX + CHANGE_MAX,
        -(VELOCITY_MAX + CHANGE_MAX) <= v.y <= VELOCITY_MAX + CHANGE_MAX,
    ensures
        vec_of(r) == steer(vec_of(pos), vec_of(v), *p),
        v.x - p.turn_factor <= r.x <= v.x + p.turn_factor,
        v.y - p.turn_factor <= r.y <= v.y + p.turn_factor,
{
    let mut x = v.x;
    let mut y = v.y;
    if pos.x <= -BOUNDS_X + p.margin.x {
        x = x + p.turn_factor;
    }
    if pos.x >= BOUNDS_X - p.margin.x {
        x = x - p.turn_factor;
    }
    if pos.y <= -BOUNDS_Y + p.margin.y {
        y = y + p.turn_factor;
    }
    if pos.y >= BOUNDS_Y - p.margin.y {
        y = y - p.turn_factor;
    }
    Vec2i { x, y }
}

proof fn lemma_square_bound(x: int, m: int)
    by (nonlinear_arith)
    requires
        -m <= x <= m,
    ensures
        0 <= x * x <= m * m,
{
}

/// Brings the speed of `v` into `[MIN_SPEED, MAX_SPEED]`.
fn clamp_speed(v: Vec2i) -> (r: Vec2i)
    requires
        -STEERED_MAX <= v.x <= STEERED_MAX,
        -STEERED_MAX <= v.y <= STEERED_MAX,
    ensures
        vec_of(r) == clamp_speed_spec(vec_of(v)),
        -VELOCITY_MAX <= r.x <= VELOCITY_MAX,
        -VELOCITY_MAX <= r.y <= VELOCITY_MAX,
{
    let vx: i128 = v.x as i128;
    let vy: i128 = v.y as i128;
    proof {
        lemma_square_bound(vx as int, STEERED_MAX as int);
        lemma_square_bound(vy as int, STEERED_MAX as int);
        assert(1083184250880int * 1083184250880int == 1173288121354466780774400int);
    }
    let s: i128 = vx * vx + vy * vy;
    let max_sq: i128 = MAX_SPEED_SQUARED as i128;
    let min_sq: i128 = MIN_SPEED_SQUARED as i128;
    assert(max_sq == MAX_SPEED * MAX_SPEED && min_sq == MIN_SPEED * MIN_SPEED);
    let r = if s > max_sq {
        let d = scaled_direction(v.x, v.y, MAX_SPEED as u64);
        Vec2i { x: d.0, y: d.1 }
    } else if s < min_sq {
        if v.x == 0 && v.y == 0 {
            Vec2i { x: MIN_SPEED, y: 0 }
        } else {
            let d = scaled_direction(v.x, v.y, MIN_SPEED as u64);
            Vec2i { x: d.0, y: d.1 }
        }
    } else {
        v
    };
    proof {
        lemma_clamp_speed_in_range(vec_of(v));
        lemma_component_bound(r.x as int, r.y as int, MAX_SPEED + 1);
    }
    r
}

/// Moves `pos` by `v` over `dt` microseconds, saturating at `POSITION_MAX`.
fn apply_velocity(pos: Vec2i, v: Vec2i, dt: u64) -> (r: Vec2i)
    requires
        -POSITION_MAX <= pos.x <= POSITION_MAX,
        -POSITION_MAX <= pos.y <= POSITION_MAX,
        -VELOCITY_MAX <= v.x <= VELOCITY_MAX,
        -VELOCITY_MAX <= v.y <= VELOCITY_MAX,
        dt <= DT_MAX,
    ensures
        vec_of(r) == integrate(vec_of(pos), vec_of(v), dt as int),
        -POSITION_MAX <= r.x <= POSITION_MAX,
        -POSITION_MAX <= r.y <= POSITION_MAX,
{
    let t: i64 = dt as i64;
    assert(-0x40_0000_0000_0000 <= v.x * t <= 0x40_0000_0000_0000
        && -0x40_0000_0000_0000 <= v.y * t <= 0x40_0000_0000_0000) by (nonlinear_arith)
        requires
            -0x40_0000 <= v.x <= 0x40_0000,
            -0x40_0000 <= v.y <= 0x40_0000,
            0 <= t <= 0x1_0000_0000,
    ;
    let mx = div_trunc_i64(v.x * t, MICROS_PER_SECOND);
    let my = div_trunc_i64(v.y * t, MICROS_PER_SECOND);
    proof {
        lemma_div_trunc_bound((v.x * t) as int, MICROS_PER_SECOND as int, 0x40_0000_0000_0000);
        lemma_div_trunc_bound((v.y * t) as int, MICROS_PER_SECOND as int, 0x40_0000_0000_0000);
    }
    Vec2i { x: saturate_exec(pos.x + mx), y: saturate_exec(pos.y + my) }
}

fn saturate_exec(c: i64) -> (r: i64)
    ensures
        r == saturate(c as int),
{
    if c > POSITION_MAX {
        POSITION_MAX
    } else if c < -POSITION_MAX {
        -POSITION_MAX
    } else {
        c
    }
}

/// The agent that one update of `dt` microseconds makes of agent `k`.
pub open spec fn next_boid(boids: Seq<Boid>, p: FlockParams, k: int, dt: int) -> Boid {
    let t = next_translation(boids, p, k, dt);
    let v = next_velocity(boids, p, k);
    Boid { translation: Vec2i { x: t.0 as i64, y: t.1 as i64 }, velocity: Vec2i { x: v.0 as i64, y: v.1 as i64 } }
}

/// The flock after one update of `dt` microseconds: every agent is computed from
/// `boids` as it stood before the update.
pub open spec fn step(boids: Seq<Boid>, p: FlockParams, dt: int) -> Seq<Boid> {
    Seq::new(boids.len(), |k: int| next_boid(boids, p, k, dt))
}

/// The flock after one update for each time step of `dts`, in order.
pub open spec fn run(boids: Seq<Boid>, p: FlockParams, dts: Seq<int>) -> Seq<Boid>
    decreases dts.len(),
{
    if dts.len() == 0 {
        boids
    } else {
        step(run(boids, p, dts.drop_last()), p, dts.last())
    }
}

/// The index in the sample stream of sample `slot` of agent `boid`: each agent reads
/// four samples of its own, position x and y, then velocity x and y.
pub open spec fn sample_index_spec(boid: int, slot: int) -> int {
    4 * boid + slot
}

/// A coordinate in `[-half, half]` from a direction component in `[0, LENGTH_MAX]`.
pub open spec fn spread(c: int, half: int) -> int {
    c * 2 * half / (LENGTH_MAX as int) - half
}

/// Agent `i` as built from the sample stream `samples`: its position is the unit
/// direction of two samples spread over the world, its velocity the unit direction of
/// two more spread over `[-MAX_SPEED, MAX_SPEED]`; a zero direction stays zero.
pub open spec fn initial_boid(samples: Seq<u32>, i: int) -> Boid {
    let dp = scaled_direction_spec(
        samples[sample_index_spec(i, 0)] as int,
        samples[sample_index_spec(i, 1)] as int,
        LENGTH_MAX as nat,
    );
    let dv = scaled_direction_spec(
        samples[sample_index_spec(i, 2)] as int,
        samples[sample_index_spec(i, 3)] as int,
        LENGTH_MAX as nat,
    );
    Boid {
        translation: Vec2i { x: spread(dp.0, BOUNDS_X as int) as i64, y: spread(dp.1, BOUNDS_Y as int) as i64 },
        velocity: Vec2i { x: spread(dv.0, MAX_SPEED as int) as i64, y: spread(dv.1, MAX_SPEED as int) as i64 },
    }
}

/// The parameters of the default flock.
pub open spec fn default_params_spec() -> FlockParams {
    FlockParams {
        margin: Vec2i { x: 737280, y: 1310720 },
        turn_factor: SUBUNITS_PER_PIXEL,
        separation_factor: 25000,
        cohesion_factor: 500,
        alignment_factor: 10000,
        view_radius_squared: 154618822656,
        separation_radius_squared: 38654705664,
    }
}

/// The default parameters: margins of a quarter of the world, a nudge of one pixel per
/// second, separation 0.025, cohesion 0.0005, alignment 0.01, a view radius of 24
/// pixels and a separation radius of 12.
pub fn default_params() -> (r: FlockParams)
    ensures
        r == default_params_spec(),
        params_wf(r),
{
    let r = FlockParams {
        margin: Vec2i { x: BOUNDS_X / 4, y: BOUNDS_Y / 4 },
        turn_factor: SUBUNITS_PER_PIXEL,
        separation_factor: 25000,
        cohesion_factor: 500,
        alignment_factor: 10000,
        view_radius_squared: 154618822656,
        separation_radius_squared: 38654705664,
    };
    assert(r.margin.x == 737280 && r.margin.y == 1310720);
    r
}

/// Where in the sample stream sample `slot` (0 to 3) of agent `boid` is read.
pub fn sample_index(boid: usize, slot: usize) -> (r: usize)
    requires
        boid < MAX_BOIDS,
        slot < 4,
    ensures
        r == sample_index_spec(boid as int, slot as int),
{
    4 * boid + slot
}

/// No two samples of the construction are read from the same index: every agent has
/// a slice of the sample stream of its own.
pub proof fn lemma_sample_indices_disjoint(b1: int, s1: int, b2: int, s2: int)
    requires
        0 <= b1,
        0 <= b2,
        0 <= s1 < 4,
        0 <= s2 < 4,
        b1 != b2 || s1 != s2,
    ensures
        sample_index_spec(b1, s1) != sample_index_spec(b2, s2),
{
}

/// Two runs from the same flock, with the same parameters and the same time steps,
/// end in the same flock.
pub proof fn lemma_run_deterministic(a: Seq<Boid>, b: Seq<Boid>, p: FlockParams, q: FlockParams, dts: Seq<int>)
    requires
        a == b,
        p == q,
    ensures
        run(a, p, dts) == run(b, q, dts),
{
}

/// A coordinate spread from a direction component.
fn spread_exec(c: i64, half: i64) -> (r: i64)
    requires
        0 <= c <= LENGTH_MAX,
        0 <= half <= BOUNDS_Y,
    ensures
        r == spread(c as int, half as int),
        -half <= r <= half,
{
    assert(0 <= c * 2 * half <= LENGTH_MAX * 2 * BOUNDS_Y) by (nonlinear_arith)
        requires
            0 <= c <= LENGTH_MAX,
            0 <= half <= BOUNDS_Y,
    ;
    assert(c * 2 * half / (LENGTH_MAX as int) <= 2 * half) by (nonlinear_arith)
        requires
            0 <= c <= LENGTH_MAX,
            0 <= half,
    ;
    c * 2 * half / (LENGTH_MAX as i64) - half
}

/// Agent `i` built from the sample stream.
fn initial_boid_exec(samples: &Vec<u32>, i: usize) -> (r: Boid)
    requires
        i < MAX_BOIDS,
        sample_index_spec(i as int, 3) < samples.len(),
    ensures
        r == initial_boid(samples@, i as int),
        boid_wf(r),
{
    let dp = scaled_direction(
        samples[sample_index(i, 0)] as i64,
        samples[sample_index(i, 1)] as i64,
        LENGTH_MAX,
    );
    let dv = scaled_direction(
        samples[sample_index(i, 2)] as i64,
        samples[sample_index(i, 3)] as i64,
        LENGTH_MAX,
    );
    assert(dp.0 >= 0 && dp.1 >= 0 && dv.0 >= 0 && dv.1 >= 0);
    Boid {
        translation: Vec2i { x: spread_exec(dp.0, BOUNDS_X), y: spread_exec(dp.1, BOUNDS_Y) },
        velocity: Vec2i { x: spread_exec(dv.0, MAX_SPEED), y: spread_exec(dv.1, MAX_SPEED) },
    }
}

impl BoidMemory {
    /// The flock is well formed: its parameters and every agent are within the bounds
    /// that keep the fixed-point arithmetic exact.
    pub open spec fn wf(&self) -> bool {
        &&& boids_wf(self.boids@)
        &&& params_wf(self.params)
    }

    /// A flock of `count` agents built from the sample stream `samples` (agent `i`
    /// reads the samples at `4 * i` to `4 * i + 3`), interacting by `params`.
    pub fn new(count: usize, samples: &Vec<u32>, params: FlockParams) -> (r: Self)
        requires
            count <= MAX_BOIDS,
            samples.len() >= 4 * count,
            params_wf(params),
        ensures
            r.wf(),
            r.params == params,
            r.boids@.len() == count,
            forall|i: int| 0 <= i < count ==> #[trigger] r.boids@[i] == initial_boid(samples@, i),
    {
        let mut boids: Vec<Boid> = Vec::new();
        let mut i: usize = 0;
        while i < count
            invariant
                count <= MAX_BOIDS,
                samples.len() >= 4 * count,
                i <= count,
                boids.len() == i,
                forall|k: int| 0 <= k < i ==> #[trigger] boids@[k] == initial_boid(samples@, k),
                forall|k: int| 0 <= k < i ==> boid_wf(#[trigger] boids@[k]),
            decreases count - i,
        {
            let b = initial_boid_exec(samples, i);
            boids.push(b);
            i = i + 1;
        }
        BoidMemory { boids, params }
    }

    /// The default flock, `BOID_COUNT` agents with the default parameters.
    pub fn from_samples(samples: &Vec<u32>) -> (r: Self)
        requires
            samples.len() >= 4 * BOID_COUNT,
        ensures
            r.wf(),
            r.params == default_params_spec(),
            r.boids@.len() == BOID_COUNT,
            forall|i: int| 0 <= i < BOID_COUNT ==> #[trigger] r.boids@[i] == initial_boid(samples@, i),
    {
        BoidMemory::new(BOID_COUNT, samples, default_params())
    }

    /// Advances the flock by `dt` microseconds: every agent's velocity changes by the
    /// separation, cohesion and alignment rules computed from the flock as it stood,
    /// then by the boundary nudges; its speed is clamped; then it moves.
    pub fn update(&mut self, dt: u64)
        requires
            old(self).wf(),
            dt <= DT_MAX,
        ensures
            final(self).wf(),
            final(self).params == old(self).params,
            final(self).boids@ == step(old(self).boids@, old(self).params, dt as int),
            forall|k: int| 0 <= k < final(self).boids@.len() ==>
                speed_in_range(vec_of(#[trigger] final(self).boids@[k].velocity)),
            dt == 0 ==> forall|k: int| 0 <= k < final(self).boids@.len() ==>
                (#[trigger] final(self).boids@[k]).translation == old(self).boids@[k].translation,
    {
        let changes = boid_forces(&self.boids, &self.params);
        let ghost before = self.boids@;
        let n = self.boids.len();
        let mut k: usize = 0;
        while k < n
            invariant
                dt <= DT_MAX,
                n == self.boids.len(),
                n == before.len(),
                boids_wf(before),
                params_wf(self.params),
                self.params == old(self).params,
                before == old(self).boids@,
                changes.len() == n,
                forall|j: int| 0 <= j < n ==> vec_of(#[trigger] changes@[j]) == velocity_change(before, self.params, j),
                k <= n,
                forall|j: int| k <= j < n ==> #[trigger] self.boids@[j] == before[j],
                forall|j: int| 0 <= j < k ==> #[trigger] self.boids@[j] == next_boid(before, self.params, j, dt as int),
                forall|j: int| 0 <= j < k ==> boid_wf(#[trigger] self.boids@[j]),
                forall|j: int| 0 <= j < k ==> speed_in_range(vec_of(#[trigger] self.boids@[j].velocity)),
                dt == 0 ==> forall|j: int| 0 <= j < k ==> (#[trigger] self.boids@[j]).translation == before[j].translation,
            decreases n - k,
        {
            let b = self.boids[k];
            let c = changes[k];
            proof {
                assert(boid_wf(before[k as int]));
                lemma_velocity_change_bound(before, self.params, k as int);
            }
            let v1 = Vec2i { x: b.velocity.x + c.x, y: b.velocity.y + c.y };
            let v2 = avoid_bounds(b.translation, v1, &self.params);
            let v3 = clamp_speed(v2);
            let t = apply_velocity(b.translation, v3, dt);
            proof {
                lemma_clamp_speed_in_range(vec_of(v2));
                if dt == 0 {
                    assert(div_trunc(v3.x * 0, MICROS_PER_SECOND as int) == 0);
                    assert(div_trunc(v3.y * 0, MICROS_PER_SECOND as int) == 0);
                }
            }
            self.boids.set(k, Boid { translation: t, velocity: v3 });
            k = k + 1;
        }
        assert(self.boids@ =~= step(before, self.params, dt as int));
    }

    /// The agents, in order.
    pub fn boids(&self) -> (r: &[Boid])
        ensures
            r@ == self.boids@,
    {
        self.boids.as_slice()
    }
}

/// An agent exactly on the inner edge of the left margin band gets `turn_factor` more
/// x-velocity from the boundary nudges, and one strictly inside the interior (outside
/// every margin band) gets no change at all. The margin must leave an interior.
pub proof fn lemma_boundary_steering(pos: (int, int), v: (int, int), p: FlockParams)
    requires
        params_wf(p),
        p.margin.x < BOUNDS_X,
    ensures
        pos.0 == -BOUNDS_X + p.margin.x ==> steer(pos, v, p).0 == v.0 + p.turn_factor,
        (-BOUNDS_X + p.margin.x < pos.0 < BOUNDS_X - p.margin.x && -BOUNDS_Y + p.margin.y < pos.1
            < BOUNDS_Y - p.margin.y) ==> steer(pos, v, p) == v,
{
}

} // verus!
