use proa::boids::{
    boid_forces, default_params, sample_index, Boid, BoidMemory, Vec2i, BOID_COUNT, BOUNDS_X,
    MAX_SPEED, MIN_SPEED, SUBUNITS_PER_PIXEL,
};

/// The documented sample stream: sample `i` is `(i * 2654435761 + 12345) mod 2^32`.
fn samples(n: usize) -> Vec<u32> {
    (0..n as u64)
        .map(|i| ((i * 2654435761 + 12345) % 4294967296) as u32)
        .collect()
}

fn flock_of(boids: Vec<Boid>) -> BoidMemory {
    BoidMemory { boids, params: default_params() }
}

fn boid(px: i64, py: i64, vx: i64, vy: i64) -> Boid {
    Boid { translation: Vec2i { x: px, y: py }, velocity: Vec2i { x: vx, y: vy } }
}

fn speed_sq(b: &Boid) -> i128 {
    let x = b.velocity.x as i128;
    let y = b.velocity.y as i128;
    x * x + y * y
}

#[test]
fn golden_one_update() {
    let mut flock = BoidMemory::from_samples(&samples(4 * BOID_COUNT));
    assert_eq!(flock.boids()[0], boid(-2949094, 5242877, -1148158, 2279967));
    assert_eq!(flock.boids()[7], boid(-1098730, 4713515, 2258033, -1071241));
    flock.update(16667);
    let expected = [
        boid(-2967411, 5279513, -1099058, 2198151),
        boid(2877574, -3282467, 1990312, -401089),
        boid(2097829, 157397, -1247938, 2117178),
        boid(2963483, -4387786, 2066459, -558783),
        boid(2151631, -15725, -1394059, 2023955),
        boid(-873423, 4582489, 2167976, -812148),
        boid(2211977, -219122, -1550963, 1906386),
        boid(-1061813, 4695771, 2215033, -1064624),
    ];
    assert_eq!(flock.boids(), &expected[..]);
}

#[test]
fn speed_stays_in_range_over_many_updates() {
    let mut flock = BoidMemory::from_samples(&samples(4 * BOID_COUNT));
    let lo = ((MIN_SPEED - 2) as i128) * ((MIN_SPEED - 2) as i128);
    let hi = ((MAX_SPEED + 1) as i128) * ((MAX_SPEED + 1) as i128);
    for _ in 0..600 {
        flock.update(16667);
        for b in flock.boids() {
            let s = speed_sq(b);
            assert!(lo <= s && s < hi, "speed squared {} out of range", s);
        }
    }
}

#[test]
fn two_runs_are_identical() {
    let mut a = BoidMemory::from_samples(&samples(4 * BOID_COUNT));
    let mut b = BoidMemory::from_samples(&samples(4 * BOID_COUNT));
    for step in 0..200u64 {
        let dt = 10000 + (step % 7) * 1000;
        a.update(dt);
        b.update(dt);
        assert_eq!(a.boids(), b.boids());
    }
}

#[test]
fn zero_dt_keeps_positions() {
    let mut flock = BoidMemory::from_samples(&samples(4 * BOID_COUNT));
    flock.update(16667);
    let before: Vec<Vec2i> = flock.boids().iter().map(|b| b.translation).collect();
    flock.update(0);
    let after: Vec<Vec2i> = flock.boids().iter().map(|b| b.translation).collect();
    assert_eq!(before, after);
}

#[test]
fn boundary_nudge_on_band_edge() {
    let p = default_params();
    let mut flock = flock_of(vec![boid(-BOUNDS_X + p.margin.x, 0, -1966080, 0)]);
    flock.update(16667);
    assert_eq!(flock.boids()[0], boid(-2244335, 0, -1966080 + p.turn_factor, 0));
}

#[test]
fn no_nudge_in_interior() {
    let mut flock = flock_of(vec![boid(0, 0, 1966080, 0)]);
    flock.update(16667);
    assert_eq!(flock.boids()[0], boid(32768, 0, 1966080, 0));
}

#[test]
fn too_fast_is_clamped_to_max_speed() {
    let mut flock = flock_of(vec![boid(0, 0, 4915200, 0)]);
    flock.update(0);
    assert_eq!(flock.boids()[0].velocity, Vec2i { x: MAX_SPEED, y: 0 });
}

#[test]
fn zero_velocity_falls_back_to_x_axis() {
    let mut flock = flock_of(vec![boid(0, 0, 0, 0)]);
    flock.update(0);
    assert_eq!(flock.boids()[0].velocity, Vec2i { x: MIN_SPEED, y: 0 });
}

#[test]
fn too_slow_is_rescaled_along_its_direction() {
    let mut flock = flock_of(vec![boid(0, 0, 3, 4)]);
    flock.update(0);
    assert_eq!(flock.boids()[0].velocity, Vec2i { x: 983040, y: 1310720 });
}

#[test]
fn close_pair_separates_and_coheres() {
    let mut flock = flock_of(vec![boid(0, 0, 1966080, 0), boid(163840, 0, 1966080, 0)]);
    flock.update(0);
    assert_eq!(flock.boids()[0].velocity, Vec2i { x: 1962065, y: 0 });
    assert_eq!(flock.boids()[1].velocity, Vec2i { x: 1970095, y: 0 });
    let px = SUBUNITS_PER_PIXEL as f64;
    assert!((flock.boids()[0].velocity.x as f64 / px - 119.755).abs() < 1e-4);
}

#[test]
fn force_pass_on_a_close_pair() {
    // Two agents 10 px apart at 100 px/s and six more far away: separation -0.25 px/s,
    // cohesion +0.005 px/s, no alignment change.
    let px = SUBUNITS_PER_PIXEL;
    let mut boids = vec![boid(0, 0, 100 * px, 0), boid(10 * px, 0, 100 * px, 0)];
    for k in 2..8 {
        boids.push(boid(100 * k * px, 100 * px, 100 * px, 0));
    }
    let changes = boid_forces(&boids, &default_params());
    let v0 = (boids[0].velocity.x + changes[0].x) as f64 / px as f64;
    let v1 = (boids[1].velocity.x + changes[1].x) as f64 / px as f64;
    assert!((v0 - 99.755).abs() < 1e-4, "{}", v0);
    assert!((v1 - 100.245).abs() < 1e-4, "{}", v1);
    assert_eq!(changes[0].y, 0);
    for k in 2..8 {
        assert_eq!(changes[k], Vec2i { x: 0, y: 0 });
    }
}

#[test]
fn sample_slices_are_disjoint() {
    assert_eq!(sample_index(0, 0), 0);
    assert_eq!(sample_index(0, 3), 3);
    assert_eq!(sample_index(1, 0), 4);
    assert_eq!(sample_index(7, 2), 30);
}

#[test]
fn default_parameters() {
    let p = default_params();
    assert_eq!(p.margin, Vec2i { x: 737280, y: 1310720 });
    assert_eq!(p.turn_factor, 16384);
    assert_eq!(p.separation_factor, 25000);
    assert_eq!(p.cohesion_factor, 500);
    assert_eq!(p.alignment_factor, 10000);
    assert_eq!(p.view_radius_squared, 24 * 16384 * 24 * 16384);
    assert_eq!(p.separation_radius_squared, 12 * 16384 * 12 * 16384);
}

#[test]
fn empty_flock_updates() {
    let mut flock = BoidMemory::new(0, &Vec::new(), default_params());
    flock.update(16667);
    assert!(flock.boids().is_empty());
}

#[test]
fn factors_above_one_are_accepted() {
    let mut params = default_params();
    params.separation_factor = 2000000;
    let mut flock = BoidMemory::new(0, &Vec::new(), params);
    flock.boids = vec![boid(0, 0, 2293760, 0), boid(163840, 0, 2293760, 0)];
    flock.update(0);
    assert_eq!(flock.boids()[0].velocity, Vec2i { x: 1966161, y: 0 });
    assert_eq!(flock.boids()[1].velocity, Vec2i { x: MAX_SPEED, y: 0 });
}
