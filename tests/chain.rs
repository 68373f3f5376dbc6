use proa::boids::{Vec2i, BOID_COUNT};
use proa::chain::{follow, grow_chains, initial_chain, Joint, LINK_SEPARATION, SEGMENTS};

const ANGLE_TOLERANCE: f64 = 1e-3;
use proa::world::{Memory, World};

fn samples(n: usize) -> Vec<u32> {
    (0..n as u64)
        .map(|i| ((i * 2654435761 + 12345) % 4294967296) as u32)
        .collect()
}

fn dist_sq(a: Vec2i, b: Vec2i) -> i128 {
    let dx = (a.x - b.x) as i128;
    let dy = (a.y - b.y) as i128;
    dx * dx + dy * dy
}

fn assert_rigid(js: &[Joint]) {
    let l = LINK_SEPARATION as i128;
    for k in 1..js.len() {
        let d = dist_sq(js[k - 1].translation, js[k].translation);
        assert!(d == 0 || ((l - 2) * (l - 2) < d && d < (l + 1) * (l + 1)), "link {} has {}", k, d);
    }
}

/// Every angle between consecutive links is at least a right angle, within tolerance.
fn assert_angles(js: &[Joint]) {
    for i in 0..js.len().saturating_sub(2) {
        let m = js[i + 1].translation;
        let u = ((js[i].translation.x - m.x) as f64, (js[i].translation.y - m.y) as f64);
        let w = ((js[i + 2].translation.x - m.x) as f64, (js[i + 2].translation.y - m.y) as f64);
        if (u.0 == 0.0 && u.1 == 0.0) || (w.0 == 0.0 && w.1 == 0.0) {
            continue;
        }
        let angle = (u.0 * w.1 - u.1 * w.0).atan2(u.0 * w.0 + u.1 * w.1).abs();
        assert!(angle >= std::f64::consts::FRAC_PI_2 - ANGLE_TOLERANCE, "angle {} at joint {}", angle, i + 1);
    }
}

fn positions(js: &[Joint]) -> Vec<(i64, i64)> {
    js.iter().map(|j| (j.translation.x, j.translation.y)).collect()
}

#[test]
fn new_chain_is_straight_along_x() {
    let c = initial_chain();
    assert_eq!(c.len(), SEGMENTS);
    assert_eq!(c[0], Joint { size: 163840, translation: Vec2i { x: 0, y: 0 } });
    assert_eq!(c[13], Joint { size: 32768, translation: Vec2i { x: 13 * LINK_SEPARATION, y: 0 } });
    assert_rigid(&c);
}

#[test]
fn chains_grow_but_never_shrink() {
    let mut chains: Vec<Vec<Joint>> = Vec::new();
    grow_chains(&mut chains, 3);
    assert_eq!(chains.len(), 3);
    chains[0][0].translation.x = 5;
    grow_chains(&mut chains, 2);
    assert_eq!(chains.len(), 3);
    assert_eq!(chains[0][0].translation.x, 5);
    grow_chains(&mut chains, 4);
    assert_eq!(chains.len(), 4);
    assert_eq!(chains[3], initial_chain());
}

#[test]
fn follow_pulls_chain_behind_head() {
    let mut c = initial_chain();
    follow(&mut c, Vec2i { x: 0, y: 0 }, Vec2i { x: 1966080, y: 0 }, 16667);
    let expected = vec![
        (103623, 23399), (429530, -10636), (756847, 4779), (1084453, -2142), (1412118, 959),
        (1739795, -429), (2067474, 192), (2395153, -86), (2722832, 38), (3050511, -17),
        (3378190, 7), (3705869, -3), (4033548, 1), (4361227, 0),
    ];
    assert_eq!(positions(&c), expected);
    assert_rigid(&c);
    assert_angles(&c);
    assert_eq!(c[5].size, 376832);
}

#[test]
fn folded_chain_is_bent_to_a_right_angle() {
    let l = LINK_SEPARATION;
    let mut c: Vec<Joint> = [(0, 0), (l, 0), (0, 0), (l, 0)]
        .iter()
        .map(|&(x, y)| Joint { size: 1, translation: Vec2i { x, y } })
        .collect();
    follow(&mut c, Vec2i { x: -l, y: 0 }, Vec2i { x: 0, y: 0 }, 0);
    assert_eq!(positions(&c), vec![(0, 0), (l, 0), (l, -l), (0, -l)]);
    assert_angles(&c);
    let anchor = c[1].translation;
    let u = (c[0].translation.x - anchor.x, c[0].translation.y - anchor.y);
    let w = (c[2].translation.x - anchor.x, c[2].translation.y - anchor.y);
    assert!(u.0 * w.0 + u.1 * w.1 <= 0);
}

#[test]
fn chains_stay_rigid_over_many_frames() {
    let mut world = World::new(&samples(4 * BOID_COUNT));
    for _ in 0..300 {
        world.update(16667);
        assert_eq!(world.joints.len(), BOID_COUNT);
        for js in world.joints.iter() {
            assert_rigid(js);
            assert_angles(js);
        }
    }
}

#[test]
fn memory_builds_world_on_first_frame() {
    let mut memory = Memory::new();
    assert!(memory.world.is_none());
    memory.update(16667, &samples(4 * BOID_COUNT));
    let world = memory.world.as_ref().unwrap();
    assert_eq!(world.boid_memory.boids().len(), BOID_COUNT);
    assert_eq!(world.joints.len(), BOID_COUNT);
}

#[test]
fn first_frame_builds_then_steps_the_flock() {
    let s = samples(4 * BOID_COUNT);
    let mut memory = Memory::new();
    memory.update(16667, &s);
    let mut world = World::new(&s);
    world.update(16667);
    let got = memory.world.as_ref().unwrap();
    assert_eq!(got.boid_memory.boids(), world.boid_memory.boids());
    assert_eq!(got.joints, world.joints);
    assert_eq!(got.boid_memory.boids()[0].translation, Vec2i { x: -2967411, y: 5279513 });
    for js in got.joints.iter() {
        assert_eq!(js.len(), SEGMENTS);
        assert_eq!(js[1].size, 294912);
    }
}

#[test]
fn angle_holds_when_middle_joint_moves_out() {
    // The middle joint starts half a link from the head and is pulled out afterwards.
    let h = LINK_SEPARATION / 2;
    let mut c: Vec<Joint> = [(0, 0), (h, 0), (0, h)]
        .iter()
        .map(|&(x, y)| Joint { size: 1, translation: Vec2i { x, y } })
        .collect();
    follow(&mut c, Vec2i { x: -2 * h, y: 0 }, Vec2i { x: 0, y: 0 }, 0);
    let l = LINK_SEPARATION;
    assert_eq!(positions(&c), vec![(0, 0), (l, 0), (l, l)]);
    assert_angles(&c);
    assert_rigid(&c);
}
