use vstd::prelude::*;
use crate::boids::{vec_of, Boid, Vec2i, MICROS_PER_SECOND, DT_MAX, POSITION_MAX};
use crate::fixed::{
    abs, div_trunc, div_trunc_i64, floor_sqrt, lemma_div_trunc_bound, lemma_floor_sqrt,
    lemma_scaled_direction_length, norm_sq, scaled_direction, scaled_direction_spec,
    DIRECTION_SCALE, LENGTH_MAX,
};

verus! {

/// Number of joints in a chain.
pub const SEGMENTS: usize = 14;

/// Largest number of joints in a chain.
pub const MAX_SEGMENTS: usize = 64;

/// Distance between consecutive joints, in sub-units (20 pixels).
pub const LINK_SEPARATION: i64 = 327680;

/// Speed at which the head target runs ahead of the agent, in sub-units per second
/// (350 pixels per second); it is added to both coordinates.
pub const RACE_AHEAD_SPEED: i64 = 5734400;

/// Largest magnitude of a joint coordinate in a well-formed chain.
pub const JOINT_MAX: i64 = 274877906944;

/// Largest magnitude of the coordinates that the solver reads.
pub const REACH_MAX: i64 = 549755813888;

/// Largest magnitude of a coordinate of a joint that the solver has placed.
pub const NEAR_MAX: i64 = 274877906944;

/// Bound on the head target's coordinates: a position, a link and the run-ahead.
pub const TARGET_MAX: i64 = 93348864879;

/// Bound on how far one link can move a joint coordinate.
pub const LINK_STEP: i64 = 327681;

/// Largest distance the head target runs ahead in one update.
pub const RACE_AHEAD_MAX: i64 = 24629060463;

/// One joint of a chain: its drawn size and its position.
#[derive(Clone, Copy, Debug, PartialEq, Eq, Structural)]
pub struct Joint {
    pub size: i64,
    pub translation: Vec2i,
}

pub open spec fn joint_wf(j: Joint) -> bool {
    &&& -JOINT_MAX <= j.translation.x <= JOINT_MAX
    &&& -JOINT_MAX <= j.translation.y <= JOINT_MAX
}

pub open spec fn chain_wf(js: Seq<Joint>) -> bool {
    &&& js.len() <= MAX_SEGMENTS
    &&& forall|k: int| 0 <= k < js.len() ==> joint_wf(#[trigger] js[k])
}

pub open spec fn dot(u: (int, int), w: (int, int)) -> int {
    u.0 * w.0 + u.1 * w.1
}

pub open spec fn cross(u: (int, int), w: (int, int)) -> int {
    u.0 * w.1 - u.1 * w.0
}

pub open spec fn minus(a: (int, int), b: (int, int)) -> (int, int) {
    (a.0 - b.0, a.1 - b.1)
}

/// `v` itself, or the +x axis where `v` is zero.
pub open spec fn direction_or_x(v: (int, int)) -> (int, int) {
    if v.0 == 0 && v.1 == 0 {
        (1, 0)
    } else {
        v
    }
}

/// `v` rescaled to `LINK_SEPARATION`, or that length along +x where `v` is zero.
pub open spec fn link_along(v: (int, int)) -> (int, int) {
    let d = direction_or_x(v);
    scaled_direction_spec(d.0, d.1, LINK_SEPARATION as nat)
}

/// Where the head of the chain of an agent at `head` moving with `velocity` aims:
/// one link ahead along the velocity, plus `RACE_AHEAD_SPEED * dt` on both axes.
pub open spec fn head_target(head: Vec2i, velocity: Vec2i, dt: int) -> (int, int) {
    let d = link_along(vec_of(velocity));
    let lead = div_trunc(RACE_AHEAD_SPEED * dt, MICROS_PER_SECOND as int);
    (head.x + d.0 + lead, head.y + d.1 + lead)
}

/// The position `p` moves to so that it sits one link from `target`, on the line from
/// `target` through `p`; a joint already on its target stays.
pub open spec fn pull(target: (int, int), p: (int, int)) -> (int, int) {
    let o = minus(target, p);
    if o.0 == 0 && o.1 == 0 {
        p
    } else {
        let r = scaled_direction_spec(o.0, o.1, LINK_SEPARATION as nat);
        minus(target, r)
    }
}

/// Where `next` goes so that the angle at `anchor` between `prev` and `next` is at least
/// a right angle: if the two links make an acute angle, `next` is put one link from
/// `anchor` at a right angle to the link toward `prev`, turned the way `next` lay.
pub open spec fn bend(prev: (int, int), anchor: (int, int), next: (int, int)) -> (int, int) {
    let u = direction_or_x(minus(prev, anchor));
    let w = direction_or_x(minus(next, anchor));
    if dot(u, w) > 0 {
        let r = scaled_direction_spec(u.0, u.1, LINK_SEPARATION as nat);
        let c = if cross(u, w) >= 0 {
            (-r.1, r.0)
        } else {
            (r.1, -r.0)
        };
        (anchor.0 + c.0, anchor.1 + c.1)
    } else {
        next
    }
}

pub open spec fn moved(j: Joint, p: (int, int)) -> Joint {
    Joint { size: j.size, translation: Vec2i { x: p.0 as i64, y: p.1 as i64 } }
}

/// The chain `js` after the solver has handled joints `i` onward, with `target` the
/// point that joint `i` follows: each joint is pulled one link behind its target and
/// becomes the target of the next; once joint `i` is placed, the joint after it is
/// bent away from joint `i - 1` where the chain folds too sharply at joint `i`, before
/// that joint is itself pulled.
pub open spec fn solve(js: Seq<Joint>, target: (int, int), i: int) -> Seq<Joint>
    decreases js.len() - i,
{
    if i < 0 || i >= js.len() {
        js
    } else {
        let p = pull(target, vec_of(js[i].translation));
        let js1 = js.update(i, moved(js[i], p));
        let js2 = if 1 <= i && i + 1 < js.len() {
            js1.update(
                i + 1,
                moved(
                    js1[i + 1],
                    bend(vec_of(js1[i - 1].translation), p, vec_of(js1[i + 1].translation)),
                ),
            )
        } else {
            js1
        };
        solve(js2, p, i + 1)
    }
}

/// `b` is one link from `a`, up to the rounding of fixed point, or sits on `a`.
pub open spec fn rigid(a: (int, int), b: (int, int)) -> bool {
    ||| a == b
    ||| (LINK_SEPARATION - 2) * (LINK_SEPARATION - 2) < norm_sq(a.0 - b.0, a.1 - b.1) < (
    LINK_SEPARATION + 1) * (LINK_SEPARATION + 1)
}

/// The head joint of `js` is one link from `target` and every joint is one link from
/// the one before it, each up to the rounding of fixed point unless the two coincide.
pub open spec fn chain_rigid(js: Seq<Joint>, target: (int, int)) -> bool {
    &&& js.len() > 0 ==> rigid(target, vec_of(js[0].translation))
    &&& forall|k: int| 1 <= k < js.len() ==>
        rigid(vec_of(js[k - 1].translation), vec_of(#[trigger] js[k].translation))
}

/// A joint pulled one link behind its target is one link from it.
pub proof fn lemma_pull_rigid(target: (int, int), p: (int, int))
    ensures
        rigid(target, pull(target, p)),
{
    let o = minus(target, p);
    if o.0 != 0 || o.1 != 0 {
        lemma_scaled_direction_length(o.0, o.1, LINK_SEPARATION as nat);
    }
}

/// `v` rescaled to one link, or one link along +x where `v` is zero.
fn link_along_exec(v: Vec2i) -> (r: (i64, i64))
    requires
        -REACH_MAX * 2 <= v.x <= REACH_MAX * 2,
        -REACH_MAX * 2 <= v.y <= REACH_MAX * 2,
    ensures
        (r.0 as int, r.1 as int) == link_along(vec_of(v)),
        -LINK_SEPARATION <= r.0 <= LINK_SEPARATION,
        -LINK_SEPARATION <= r.1 <= LINK_SEPARATION,
{
    if v.x == 0 && v.y == 0 {
        scaled_direction(1, 0, LINK_SEPARATION as u64)
    } else {
        scaled_direction(v.x, v.y, LINK_SEPARATION as u64)
    }
}

/// The point that the head joint of the chain of an agent follows.
fn head_target_exec(head: Vec2i, velocity: Vec2i, dt: u64) -> (r: Vec2i)
    requires
        -POSITION_MAX <= head.x <= POSITION_MAX,
        -POSITION_MAX <= head.y <= POSITION_MAX,
        -REACH_MAX <= velocity.x <= REACH_MAX,
        -REACH_MAX <= velocity.y <= REACH_MAX,
        dt <= DT_MAX,
    ensures
        vec_of(r) == head_target(head, velocity, dt as int),
        -TARGET_MAX <= r.x <= TARGET_MAX,
        -TARGET_MAX <= r.y <= TARGET_MAX,
{
    let d = link_along_exec(velocity);
    let t: i64 = dt as i64;
    assert(0 <= RACE_AHEAD_SPEED * t <= RACE_AHEAD_MAX * MICROS_PER_SECOND) by (nonlinear_arith)
        requires
            0 <= t <= DT_MAX,
    ;
    let lead = div_trunc_i64(RACE_AHEAD_SPEED * t, MICROS_PER_SECOND);
    proof {
        lemma_div_trunc_bound(RACE_AHEAD_SPEED * t, MICROS_PER_SECOND as int, RACE_AHEAD_MAX as int);
    }
    Vec2i { x: head.x + d.0 + lead, y: head.y + d.1 + lead }
}

/// Moves `p` to one link behind `target`.
fn pull_exec(target: Vec2i, p: Vec2i) -> (r: Vec2i)
    requires
        -REACH_MAX <= target.x <= REACH_MAX,
        -REACH_MAX <= target.y <= REACH_MAX,
        -REACH_MAX <= p.x <= REACH_MAX,
        -REACH_MAX <= p.y <= REACH_MAX,
    ensures
        vec_of(r) == pull(vec_of(target), vec_of(p)),
        target.x - LINK_SEPARATION <= r.x <= target.x + LINK_SEPARATION,
        target.y - LINK_SEPARATION <= r.y <= target.y + LINK_SEPARATION,
{
    let ox = target.x - p.x;
    let oy = target.y - p.y;
    if ox == 0 && oy == 0 {
        p
    } else {
        let d = scaled_direction(ox, oy, LINK_SEPARATION as u64);
        Vec2i { x: target.x - d.0, y: target.y - d.1 }
    }
}

/// Bends `next` away from `prev` about `anchor` where the two links make an acute angle.
fn bend_exec(prev: Vec2i, anchor: Vec2i, next: Vec2i) -> (r: Vec2i)
    requires
        -REACH_MAX <= prev.x <= REACH_MAX,
        -REACH_MAX <= prev.y <= REACH_MAX,
        -REACH_MAX <= anchor.x <= REACH_MAX,
        -REACH_MAX <= anchor.y <= REACH_MAX,
        -REACH_MAX <= next.x <= REACH_MAX,
        -REACH_MAX <= next.y <= REACH_MAX,
    ensures
        vec_of(r) == bend(vec_of(prev), vec_of(anchor), vec_of(next)),
        r == next || (anchor.x - LINK_SEPARATION <= r.x <= anchor.x + LINK_SEPARATION
            && anchor.y - LINK_SEPARATION <= r.y <= anchor.y + LINK_SEPARATION),
{
    let mut ux = prev.x - anchor.x;
    let mut uy = prev.y - anchor.y;
    if ux == 0 && uy == 0 {
        ux = 1;
    }
    let mut wx = next.x - anchor.x;
    let mut wy = next.y - anchor.y;
    if wx == 0 && wy == 0 {
        wx = 1;
    }
    let (ux, uy, wx, wy) = (ux as i128, uy as i128, wx as i128, wy as i128);
    assert(-0x10_0000_0000_0000_0000_0000 <= ux * wx <= 0x10_0000_0000_0000_0000_0000
        && -0x10_0000_0000_0000_0000_0000 <= uy * wy <= 0x10_0000_0000_0000_0000_0000
        && -0x10_0000_0000_0000_0000_0000 <= ux * wy <= 0x10_0000_0000_0000_0000_0000
        && -0x10_0000_0000_0000_0000_0000 <= uy * wx <= 0x10_0000_0000_0000_0000_0000)
        by (nonlinear_arith)
        requires
            -2 * REACH_MAX <= ux <= 2 * REACH_MAX,
            -2 * REACH_MAX <= uy <= 2 * REACH_MAX,
            -2 * REACH_MAX <= wx <= 2 * REACH_MAX,
            -2 * REACH_MAX <= wy <= 2 * REACH_MAX,
    ;
    if ux * wx + uy * wy > 0 {
        let d = scaled_direction(ux as i64, uy as i64, LINK_SEPARATION as u64);
        if ux * wy - uy * wx >= 0 {
            Vec2i { x: anchor.x - d.1, y: anchor.y + d.0 }
        } else {
            Vec2i { x: anchor.x + d.1, y: anchor.y - d.0 }
        }
    } else {
        next
    }
}

/// The solver moves no joint before `i` and changes no joint's size.
pub proof fn lemma_solve_keeps(js: Seq<Joint>, target: (int, int), i: int)
    requires
        0 <= i,
    ensures
        solve(js, target, i).len() == js.len(),
        forall|k: int| 0 <= k < i && k < js.len() ==> #[trigger] solve(js, target, i)[k] == js[k],
        forall|k: int| 0 <= k < js.len() ==> (#[trigger] solve(js, target, i)[k]).size == js[k].size,
    decreases js.len() - i,
{
    if i < js.len() {
        let p = pull(target, vec_of(js[i].translation));
        let js1 = js.update(i, moved(js[i], p));
        let js2 = if 1 <= i && i + 1 < js.len() {
            js1.update(
                i + 1,
                moved(js1[i + 1], bend(vec_of(js1[i - 1].translation), p, vec_of(js1[i + 1].translation))),
            )
        } else {
            js1
        };
        lemma_solve_keeps(js2, p, i + 1);
        assert forall|k: int| 0 <= k < i && k < js.len() implies #[trigger] solve(js, target, i)[k] == js[k] by {
            assert(solve(js2, p, i + 1)[k] == js2[k]);
        }
        assert forall|k: int| 0 <= k < js.len() implies (#[trigger] solve(js, target, i)[k]).size == js[k].size by {
            assert(solve(js2, p, i + 1)[k].size == js2[k].size);
        }
    }
}

/// Moves the chain `joints` to trail an agent at `head` moving with `velocity`, over a
/// step of `dt` microseconds: the head joint follows the agent's head target and each
/// joint follows the one before it, one link behind; the finished chain is rigid and
/// bends by at least a right angle at every joint, up to the rounding of fixed point.
pub fn follow(joints: &mut Vec<Joint>, head: Vec2i, velocity: Vec2i, dt: u64)
    requires
        chain_wf(old(joints)@),
        -POSITION_MAX <= head.x <= POSITION_MAX,
        -POSITION_MAX <= head.y <= POSITION_MAX,
        -POSITION_MAX <= velocity.x <= POSITION_MAX,
        -POSITION_MAX <= velocity.y <= POSITION_MAX,
        dt <= DT_MAX,
    ensures
        final(joints)@ == solve(old(joints)@, head_target(head, velocity, dt as int), 0),
        chain_wf(final(joints)@),
        final(joints)@.len() == old(joints)@.len(),
        forall|k: int| 0 <= k < final(joints)@.len() ==> (#[trigger] final(joints)@[k]).size == old(joints)@[k].size,
        chain_rigid(final(joints)@, head_target(head, velocity, dt as int)),
        chain_angles(final(joints)@),
{
    let ghost start = joints@;
    let target0 = head_target_exec(head, velocity, dt);
    let mut target = target0;
    let n = joints.len();
    let mut i: usize = 0;
    proof {
        lemma_solve_keeps(start, vec_of(target0), 0);
    }
    while i < n
        invariant
            n == joints.len(),
            n == start.len(),
            n <= MAX_SEGMENTS,
            i <= n,
            chain_wf(start),
            -TARGET_MAX <= target0.x <= TARGET_MAX,
            -TARGET_MAX <= target0.y <= TARGET_MAX,
            solve(joints@, vec_of(target), i as int) == solve(start, vec_of(target0), 0),
            i == 0 ==> target == target0,
            i > 0 ==> target == joints@[i - 1].translation,
            -TARGET_MAX - i * LINK_STEP <= target.x <= TARGET_MAX + i * LINK_STEP,
            -TARGET_MAX - i * LINK_STEP <= target.y <= TARGET_MAX + i * LINK_STEP,
            forall|k: int| 0 <= k < i ==> -NEAR_MAX <= (#[trigger] joints@[k]).translation.x <= NEAR_MAX
                && -NEAR_MAX <= joints@[k].translation.y <= NEAR_MAX,
            forall|k: int| i <= k < n ==> -JOINT_MAX - (i + 1) * LINK_STEP <= (#[trigger] joints@[k]).translation.x
                <= JOINT_MAX + (i + 1) * LINK_STEP
                && -JOINT_MAX - (i + 1) * LINK_STEP <= joints@[k].translation.y <= JOINT_MAX + (i + 1) * LINK_STEP,
            forall|k: int| 0 <= k < n ==> (#[trigger] joints@[k]).size == start[k].size,
            i > 0 ==> rigid(vec_of(target0), vec_of(joints@[0].translation)),
            forall|k: int| 1 <= k < i ==>
                rigid(vec_of(joints@[k - 1].translation), vec_of(#[trigger] joints@[k].translation)),
            forall|t: int| 0 <= t && t + 2 < i ==> angle_floor(
                vec_of(joints@[t].translation),
                vec_of(#[trigger] joints@[t + 1].translation),
                vec_of(joints@[t + 2].translation),
            ),
            2 <= i < n ==> bent(
                vec_of(joints@[i - 2].translation),
                vec_of(joints@[i - 1].translation),
                vec_of(joints@[i as int].translation),
            ),
        decreases n - i,
    {
        let ghost before = joints@;
        let j = joints[i];
        let p = pull_exec(target, j.translation);
        proof {
            lemma_pull_rigid(vec_of(target), vec_of(j.translation));
            if i >= 2 {
                lemma_pull_keeps_floor(
                    vec_of(joints@[i - 2].translation),
                    vec_of(joints@[i - 1].translation),
                    vec_of(j.translation),
                );
            }
        }
        joints.set(i, Joint { size: j.size, translation: p });
        let ghost js1 = joints@;
        assert(js1 == before.update(i as int, moved(before[i as int], vec_of(p))));
        if 1 <= i && i + 1 < n {
            let prev = joints[i - 1];
            let next = joints[i + 1];
            let b = bend_exec(prev.translation, p, next.translation);
            proof {
                lemma_bend_bent(vec_of(prev.translation), vec_of(p), vec_of(next.translation));
            }
            joints.set(i + 1, Joint { size: next.size, translation: b });
            assert(joints@ == js1.update(
                i + 1,
                moved(js1[i + 1], bend(vec_of(js1[i - 1].translation), vec_of(p), vec_of(js1[i + 1].translation))),
            ));
        }
        target = p;
        i = i + 1;
        proof {
            assert forall|k: int| 1 <= k < i implies
                rigid(vec_of(joints@[k - 1].translation), vec_of(#[trigger] joints@[k].translation)) by {
                if k < i - 1 {
                    assert(joints@[k - 1] == before[k - 1] && joints@[k] == before[k]);
                }
            }
            assert forall|t: int| 0 <= t && t + 2 < i implies angle_floor(
                vec_of(joints@[t].translation),
                vec_of(#[trigger] joints@[t + 1].translation),
                vec_of(joints@[t + 2].translation),
            ) by {
                if t + 2 < i - 1 {
                    assert(joints@[t] == before[t] && joints@[t + 1] == before[t + 1] && joints@[t + 2] == before[t + 2]);
                } else {
                    assert(joints@[t] == before[t] && joints@[t + 1] == before[t + 1]);
                    assert(joints@[t + 2].translation == p);
                }
            }
        }
    }
    proof {
        lemma_solve_keeps(joints@, vec_of(target), n as int);
    }
}

/// Drawn size of joint `k` of a chain, head first, in sub-units.
pub open spec fn joint_size_spec(k: int) -> i64 {
    if k == 0 { 163840 }
    else if k == 1 { 294912 }
    else if k == 2 { 409600 }
    else if k == 3 { 376832 }
    else if k == 4 { 393216 }
    else if k == 5 { 376832 }
    else if k == 6 { 360448 }
    else if k == 7 { 344064 }
    else if k == 8 { 262144 }
    else if k == 9 { 229376 }
    else if k == 10 { 163840 }
    else if k == 11 { 98304 }
    else if k == 12 { 49152 }
    else { 32768 }
}

/// Drawn size of joint `k` of a chain.
pub fn joint_size(k: usize) -> (r: i64)
    requires
        k < SEGMENTS,
    ensures
        r == joint_size_spec(k as int),
{
    if k == 0 { 163840 }
    else if k == 1 { 294912 }
    else if k == 2 { 409600 }
    else if k == 3 { 376832 }
    else if k == 4 { 393216 }
    else if k == 5 { 376832 }
    else if k == 6 { 360448 }
    else if k == 7 { 344064 }
    else if k == 8 { 262144 }
    else if k == 9 { 229376 }
    else if k == 10 { 163840 }
    else if k == 11 { 98304 }
    else if k == 12 { 49152 }
    else { 32768 }
}

/// A new chain: `SEGMENTS` joints laid out along +x from the origin, one link apart.
pub open spec fn initial_chain_spec() -> Seq<Joint> {
    Seq::new(
        SEGMENTS as nat,
        |k: int| Joint { size: joint_size_spec(k), translation: Vec2i { x: (k * LINK_SEPARATION) as i64, y: 0 } },
    )
}

/// A new chain, laid out along +x from the origin.
pub fn initial_chain() -> (r: Vec<Joint>)
    ensures
        r@ == initial_chain_spec(),
        chain_wf(r@),
{
    let mut r: Vec<Joint> = Vec::new();
    let mut k: usize = 0;
    let mut x: i64 = 0;
    while k < SEGMENTS
        invariant
            k <= SEGMENTS,
            x == k * LINK_SEPARATION,
            r@.len() == k,
            forall|j: int| 0 <= j < k ==> #[trigger] r@[j] == initial_chain_spec()[j],
        decreases SEGMENTS - k,
    {
        r.push(Joint { size: joint_size(k), translation: Vec2i { x, y: 0 } });
        k = k + 1;
        x = x + LINK_SEPARATION;
    }
    assert(r@ =~= initial_chain_spec());
    r
}

pub open spec fn chains_wf(chains: Seq<Vec<Joint>>) -> bool {
    forall|k: int| 0 <= k < chains.len() ==> chain_wf(#[trigger] chains[k]@)
}

/// Grows the chain collection to `count` chains with new chains; it never shrinks.
pub fn grow_chains(chains: &mut Vec<Vec<Joint>>, count: usize)
    requires
        chains_wf(old(chains)@),
    ensures
        chains_wf(final(chains)@),
        final(chains)@.len() == if count > old(chains)@.len() { count as int } else { old(chains)@.len() as int },
        forall|k: int| 0 <= k < old(chains)@.len() ==> #[trigger] final(chains)@[k] == old(chains)@[k],
        forall|k: int| old(chains)@.len() <= k < final(chains)@.len() ==> (#[trigger] final(chains)@[k])@ == initial_chain_spec(),
{
    let ghost start = chains@;
    while chains.len() < count
        invariant
            chains_wf(chains@),
            start.len() <= chains@.len(),
            chains@.len() <= start.len() || chains@.len() <= count,
            forall|k: int| 0 <= k < start.len() ==> #[trigger] chains@[k] == start[k],
            forall|k: int| start.len() <= k < chains@.len() ==> (#[trigger] chains@[k])@ == initial_chain_spec(),
        decreases count - chains.len(),
    {
        chains.push(initial_chain());
    }
}

/// A copy of a chain.
fn copy_chain(c: &Vec<Joint>) -> (r: Vec<Joint>)
    ensures
        r@ == c@,
{
    let mut r: Vec<Joint> = Vec::new();
    let mut k: usize = 0;
    while k < c.len()
        invariant
            k <= c.len(),
            r@ == c@.subrange(0, k as int),
        decreases c.len() - k,
    {
        r.push(c[k]);
        k = k + 1;
        assert(r@ =~= c@.subrange(0, k as int));
    }
    assert(r@ =~= c@);
    r
}

/// Brings the chain collection up to one chain per agent, then moves chain `k` to trail
/// agent `k` over a step of `dt` microseconds. Chains beyond the agents stay as they are.
pub fn update_chains(chains: &mut Vec<Vec<Joint>>, boids: &[Boid], dt: u64)
    requires
        chains_wf(old(chains)@),
        crate::boids::boids_wf(boids@),
        dt <= DT_MAX,
    ensures
        chains_wf(final(chains)@),
        final(chains)@.len() == if boids@.len() > old(chains)@.len() { boids@.len() as int } else { old(chains)@.len() as int },
        forall|k: int| 0 <= k < boids@.len() ==> (#[trigger] final(chains)@[k])@ == solve(
            if k < old(chains)@.len() { old(chains)@[k]@ } else { initial_chain_spec() },
            head_target(boids@[k].translation, boids@[k].velocity, dt as int),
            0,
        ),
        forall|k: int| boids@.len() <= k < final(chains)@.len() ==> #[trigger] final(chains)@[k] == old(chains)@[k],
        forall|k: int| 0 <= k < boids@.len() ==> chain_rigid(
            (#[trigger] final(chains)@[k])@,
            head_target(boids@[k].translation, boids@[k].velocity, dt as int),
        ),
        forall|k: int| 0 <= k < boids@.len() ==> chain_angles((#[trigger] final(chains)@[k])@),
{
    let ghost start = chains@;
    grow_chains(chains, boids.len());
    let ghost grown = chains@;
    let mut k: usize = 0;
    while k < boids.len()
        invariant
            chains_wf(chains@),
            crate::boids::boids_wf(boids@),
            dt <= DT_MAX,
            chains@.len() == grown.len(),
            boids@.len() <= grown.len(),
            k <= boids@.len(),
            forall|j: int| 0 <= j < grown.len() && j < start.len() ==> grown[j] == start[j],
            forall|j: int| start.len() <= j < grown.len() ==> (#[trigger] grown[j])@ == initial_chain_spec(),
            forall|j: int| k <= j < grown.len() ==> #[trigger] chains@[j] == grown[j],
            forall|j: int| 0 <= j < k ==> (#[trigger] chains@[j])@ == solve(
                grown[j]@,
                head_target(boids@[j].translation, boids@[j].velocity, dt as int),
                0,
            ),
            forall|j: int| 0 <= j < k ==> chain_rigid(
                (#[trigger] chains@[j])@,
                head_target(boids@[j].translation, boids@[j].velocity, dt as int),
            ),
            forall|j: int| 0 <= j < k ==> chain_angles((#[trigger] chains@[j])@),
        decreases boids@.len() - k,
    {
        let b = boids[k];
        assert(crate::boids::boid_wf(boids@[k as int]));
        let mut c = copy_chain(&chains[k]);
        assert(chain_wf(chains@[k as int]@));
        follow(&mut c, b.translation, b.velocity, dt);
        chains.set(k, c);
        k = k + 1;
    }
}

proof fn lemma_rounding_cross(ax: int, ay: int, kl: int, d: int, p: int, q: int)
    by (nonlinear_arith)
    requires
        ax >= 0,
        ay >= 0,
        d > 0,
        0 <= ax * kl - p * d < d,
        0 <= ay * kl - q * d < d,
    ensures
        (ax * q - ay * p) * (ax * q - ay * p) < ax * ax + ay * ay || (ax == 0 && ay == 0),
{
    let r1 = ax * kl - p * d;
    let r2 = ay * kl - q * d;
    let e = ax * q - ay * p;
    assert(e * d == ay * r1 - ax * r2);
    if ax >= ay {
        assert(-ax * d < e * d < ax * d || ax == 0);
        if ax > 0 {
            assert(-ax < e < ax);
            assert(e * e < ax * ax);
        }
    } else {
        assert(-ay * d < e * d < ay * d);
        assert(-ay < e < ay);
        assert(e * e < ay * ay);
    }
}

/// After a vector `u` is rescaled in fixed point, the rescaled vector is off the line of
/// `u` by less than one unit of length per unit of `u`: `cross(u, r)^2 < |u|^2`.
pub proof fn lemma_scaled_direction_cross(ux: int, uy: int, len: nat)
    requires
        ux != 0 || uy != 0,
    ensures
        ({
            let r = scaled_direction_spec(ux, uy, len);
            cross((ux, uy), r) * cross((ux, uy), r) < norm_sq(ux, uy)
        }),
{
    let k = DIRECTION_SCALE as int;
    let a = abs(ux) * k;
    let b = abs(uy) * k;
    let d = floor_sqrt((a * a + b * b) as nat) as int;
    lemma_floor_sqrt((a * a + b * b) as nat);
    assert(a * a + b * b >= 1) by (nonlinear_arith)
        requires
            abs(ux) >= 1 || abs(uy) >= 1,
            a == abs(ux) * k,
            b == abs(uy) * k,
            k >= 1,
    ;
    assert(d > 0) by (nonlinear_arith)
        requires
            a * a + b * b < (d + 1) * (d + 1),
            a * a + b * b >= 1,
            d >= 0,
    ;
    let kl = k * len;
    let p = (abs(ux) * k * len) / d;
    let q = (abs(uy) * k * len) / d;
    assert(0 <= abs(ux) * kl - p * d < d) by (nonlinear_arith)
        requires
            d > 0,
            p == (abs(ux) * k * len) / d,
            kl == k * len,
    ;
    assert(0 <= abs(uy) * kl - q * d < d) by (nonlinear_arith)
        requires
            d > 0,
            q == (abs(uy) * k * len) / d,
            kl == k * len,
    ;
    lemma_rounding_cross(abs(ux) as int, abs(uy) as int, kl, d, p, q);
    let r = scaled_direction_spec(ux, uy, len);
    assert(r.0 == if ux >= 0 { p } else { -p });
    assert(r.1 == if uy >= 0 { q } else { -q });
    let e = abs(ux) * q - abs(uy) * p;
    assert(cross((ux, uy), r) * cross((ux, uy), r) == e * e) by (nonlinear_arith)
        requires
            r.0 == if ux >= 0 { p } else { -p },
            r.1 == if uy >= 0 { q } else { -q },
            abs(ux) == if ux >= 0 { ux } else { -ux },
            abs(uy) == if uy >= 0 { uy } else { -uy },
            e == abs(ux) * q - abs(uy) * p,
    ;
    assert(norm_sq(ux, uy) == abs(ux) * abs(ux) + abs(uy) * abs(uy)) by (nonlinear_arith)
        requires
            abs(ux) == if ux >= 0 { ux } else { -ux },
            abs(uy) == if uy >= 0 { uy } else { -uy },
    ;
}

/// The bend correction holds the angle at `anchor` to at least a right angle: with `u`
/// the link from `anchor` toward `prev` (+x where that link is empty) and `w` the link
/// toward where `next` ends up, either `dot(u, w) <= 0`, or `w` is one link long and
/// `dot(u, w)^2 < |u|^2`, so that the cosine of the angle is below `1 / |w|`: a right
/// angle up to the rounding of fixed point.
pub proof fn lemma_bend_floor(prev: (int, int), anchor: (int, int), next: (int, int))
    ensures
        ({
            let u = direction_or_x(minus(prev, anchor));
            let w = minus(bend(prev, anchor, next), anchor);
            ||| dot(u, direction_or_x(w)) <= 0
            ||| (dot(u, w) * dot(u, w) < norm_sq(u.0, u.1) && rigid(anchor, bend(prev, anchor, next)))
        }),
{
    let u = direction_or_x(minus(prev, anchor));
    let wn = direction_or_x(minus(next, anchor));
    if dot(u, wn) > 0 {
        let r = scaled_direction_spec(u.0, u.1, LINK_SEPARATION as nat);
        lemma_scaled_direction_cross(u.0, u.1, LINK_SEPARATION as nat);
        lemma_scaled_direction_length(u.0, u.1, LINK_SEPARATION as nat);
        let w = minus(bend(prev, anchor, next), anchor);
        if cross(u, wn) >= 0 {
            assert(w == (-r.1, r.0));
        } else {
            assert(w == (r.1, -r.0));
        }
        assert(dot(u, w) * dot(u, w) == cross(u, r) * cross(u, r)) by (nonlinear_arith)
            requires
                w == (-r.1, r.0) || w == (r.1, -r.0),
        ;
        assert(norm_sq(anchor.0 - bend(prev, anchor, next).0, anchor.1 - bend(prev, anchor, next).1)
            == norm_sq(r.0, r.1)) by (nonlinear_arith)
            requires
                w == (-r.1, r.0) || w == (r.1, -r.0),
                w == minus(bend(prev, anchor, next), anchor),
        ;
    }
}

/// The joint `next` lies, seen from `anchor`, where the bend correction leaves it
/// relative to `prev`: one of the two links is empty, or they make at least a right
/// angle, or the link to `next` is about one link long and off the right angle by
/// less than the rounding of fixed point (`dot(u, v)^2 < |u|^2`).
pub open spec fn bent(prev: (int, int), anchor: (int, int), next: (int, int)) -> bool {
    let u = minus(prev, anchor);
    let v = minus(next, anchor);
    ||| (u.0 == 0 && u.1 == 0)
    ||| (v.0 == 0 && v.1 == 0)
    ||| dot(u, v) <= 0
    ||| (dot(u, v) * dot(u, v) < norm_sq(u.0, u.1) && (LINK_SEPARATION - 2) * (LINK_SEPARATION - 2)
        < norm_sq(v.0, v.1))
}

/// The angle at `m` between `a` and `b` is at least a right angle, up to the rounding
/// of fixed point: `dot(a - m, b - m) <= 3 * (|a.x - m.x| + |a.y - m.y|)`, so that the
/// cosine of the angle is at most `3 * sqrt(2) / |b - m|`, about `1.3e-5` for a link.
pub open spec fn angle_floor(a: (int, int), m: (int, int), b: (int, int)) -> bool {
    dot(minus(a, m), minus(b, m)) <= 3 * (abs(a.0 - m.0) + abs(a.1 - m.1))
}

/// Every three consecutive joints of `js` hold the right-angle floor at the middle one.
pub open spec fn chain_angles(js: Seq<Joint>) -> bool {
    forall|t: int| 0 <= t && t + 2 < js.len() ==> angle_floor(
        vec_of(js[t].translation),
        vec_of(#[trigger] js[t + 1].translation),
        vec_of(js[t + 2].translation),
    )
}

/// The bend correction leaves its triple bent.
pub proof fn lemma_bend_bent(prev: (int, int), anchor: (int, int), next: (int, int))
    ensures
        bent(prev, anchor, bend(prev, anchor, next)),
{
    lemma_bend_floor(prev, anchor, next);
    let b = bend(prev, anchor, next);
    let v = minus(b, anchor);
    assert(norm_sq(anchor.0 - b.0, anchor.1 - b.1) == norm_sq(v.0, v.1)) by (nonlinear_arith)
        requires
            v == minus(b, anchor),
    ;
}

proof fn lemma_component_dot(uc: int, vc: int, kl: int, d: int, rc: int)
    by (nonlinear_arith)
    requires
        d > 0,
        kl >= 0,
        rc == (if vc >= 0 { (abs(vc) * kl) / d } else { -((abs(vc) * kl) / d) }),
        abs(vc) == (if vc >= 0 { vc } else { -vc }),
        abs(uc) == (if uc >= 0 { uc } else { -uc }),
    ensures
        uc * rc * d <= uc * vc * kl + abs(uc) * d,
{
    let p = (abs(vc) * kl) / d;
    let rho = abs(vc) * kl - p * d;
    assert(0 <= rho < d);
    if vc >= 0 {
        assert(rc * d == vc * kl - rho);
    } else {
        assert(rc * d == vc * kl + rho);
    }
    assert(uc * rc * d == uc * (rc * d));
}

/// Rescaling `v` to length `len` moves `dot(u, v)` by the rounding only:
/// `dot(u, r) * d <= dot(u, v) * DIRECTION_SCALE * len + (|u.x| + |u.y|) * d`, with `d`
/// the rounded length of `v` blown up by `DIRECTION_SCALE`, which is at least
/// `DIRECTION_SCALE * (len - 2)` when `|v| > len - 2`.
proof fn lemma_scaled_dot(u: (int, int), v: (int, int), len: nat)
    requires
        v.0 != 0 || v.1 != 0,
        len <= LENGTH_MAX,
    ensures
        ({
            let k = DIRECTION_SCALE as int;
            let d = floor_sqrt((abs(v.0) * k * (abs(v.0) * k) + abs(v.1) * k * (abs(v.1) * k)) as nat) as int;
            let r = scaled_direction_spec(v.0, v.1, len);
            &&& d > 0
            &&& dot(u, r) * d <= dot(u, v) * (k * len) + (abs(u.0) + abs(u.1)) * d
            &&& (len >= 2 && (len - 2) * (len - 2) < norm_sq(v.0, v.1)) ==> k * (len - 2) <= d
        }),
{
    let k = DIRECTION_SCALE as int;
    let a = abs(v.0) * k;
    let b = abs(v.1) * k;
    let n = (a * a + b * b) as nat;
    let d = floor_sqrt(n) as int;
    lemma_floor_sqrt(n);
    assert(n >= 1) by (nonlinear_arith)
        requires
            abs(v.0) >= 1 || abs(v.1) >= 1,
            a == abs(v.0) * k,
            b == abs(v.1) * k,
            k >= 1,
            n == a * a + b * b,
    ;
    assert(d > 0) by (nonlinear_arith)
        requires
            n < (d + 1) * (d + 1),
            n >= 1,
            d >= 0,
    ;
    let kl = k * len;
    let r = scaled_direction_spec(v.0, v.1, len);
    assert(abs(v.0) * k * len == abs(v.0) * kl && abs(v.1) * k * len == abs(v.1) * kl) by (nonlinear_arith)
        requires
            kl == k * len,
    ;
    lemma_component_dot(u.0, v.0, kl, d, r.0);
    lemma_component_dot(u.1, v.1, kl, d, r.1);
    assert(dot(u, r) * d == u.0 * r.0 * d + u.1 * r.1 * d) by (nonlinear_arith);
    assert(dot(u, v) * kl == u.0 * v.0 * kl + u.1 * v.1 * kl) by (nonlinear_arith);
    assert((abs(u.0) + abs(u.1)) * d == abs(u.0) * d + abs(u.1) * d) by (nonlinear_arith);
    if len >= 2 && (len - 2) * (len - 2) < norm_sq(v.0, v.1) {
        assert(n == (k * k) * norm_sq(v.0, v.1)) by (nonlinear_arith)
            requires
                a == abs(v.0) * k,
                b == abs(v.1) * k,
                n == a * a + b * b,
                abs(v.0) == (if v.0 >= 0 { v.0 } else { -v.0 }),
                abs(v.1) == (if v.1 >= 0 { v.1 } else { -v.1 }),
        ;
        assert((k * (len - 2)) * (k * (len - 2)) < n) by (nonlinear_arith)
            requires
                n == (k * k) * norm_sq(v.0, v.1),
                (len - 2) * (len - 2) < norm_sq(v.0, v.1),
                k >= 1,
        ;
        assert(k * (len - 2) <= d) by (nonlinear_arith)
            requires
                (k * (len - 2)) * (k * (len - 2)) < n,
                n < (d + 1) * (d + 1),
                d >= 0,
                len >= 2,
                k >= 1,
        ;
    }
}

/// Rescaling is odd: `-v` rescales to `-r`.
proof fn lemma_scaled_direction_neg(x: int, y: int, len: nat)
    ensures
        scaled_direction_spec(-x, -y, len) == ({
            let r = scaled_direction_spec(x, y, len);
            (-r.0, -r.1)
        }),
{
    assert(abs(-x) == abs(x) && abs(-y) == abs(y));
    if x != 0 || y != 0 {
        let a = abs(x) * DIRECTION_SCALE;
        let b = abs(y) * DIRECTION_SCALE;
        let n = (a * a + b * b) as nat;
        let d = floor_sqrt(n);
        lemma_floor_sqrt(n);
        assert(n >= 1) by (nonlinear_arith)
            requires
                abs(x) >= 1 || abs(y) >= 1,
                a == abs(x) * DIRECTION_SCALE,
                b == abs(y) * DIRECTION_SCALE,
                n == a * a + b * b,
        ;
        assert(d >= 1) by (nonlinear_arith)
            requires
                n < (d + 1) * (d + 1),
                n >= 1,
        ;
        assert((abs(0) * DIRECTION_SCALE * len) / (d as int) == 0) by (nonlinear_arith)
            requires
                d >= 1,
        ;
    }
}

/// Pulling the bent joint `b` one link behind `m` keeps the angle at `m` at the
/// right-angle floor: the pull only slides `b` along its line through `m`.
pub proof fn lemma_pull_keeps_floor(a: (int, int), m: (int, int), b: (int, int))
    requires
        bent(a, m, b),
    ensures
        angle_floor(a, m, pull(m, b)),
{
    let u = minus(a, m);
    let v = minus(b, m);
    let o = minus(m, b);
    let s = 3 * (abs(u.0) + abs(u.1));
    assert(abs(u.0) >= 0 && abs(u.1) >= 0);
    if o.0 == 0 && o.1 == 0 {
        assert(minus(pull(m, b), m) == (0int, 0int));
        assert(dot(u, (0int, 0int)) == 0) by (nonlinear_arith);
    } else if u.0 == 0 && u.1 == 0 {
        assert(dot(u, minus(pull(m, b), m)) == 0) by (nonlinear_arith)
            requires
                u.0 == 0 && u.1 == 0,
        ;
    } else {
        let k = DIRECTION_SCALE as int;
        let l = LINK_SEPARATION as nat;
        lemma_scaled_direction_neg(v.0, v.1, l);
        assert(o == (-v.0, -v.1));
        let r = scaled_direction_spec(v.0, v.1, l);
        assert(minus(pull(m, b), m) == r);
        lemma_scaled_dot(u, v, l);
        let d = floor_sqrt((abs(v.0) * k * (abs(v.0) * k) + abs(v.1) * k * (abs(v.1) * k)) as nat) as int;
        let e = abs(u.0) + abs(u.1);
        if dot(u, v) <= 0 {
            assert(dot(u, r) <= e) by (nonlinear_arith)
                requires
                    d > 0,
                    dot(u, r) * d <= dot(u, v) * (k * l) + e * d,
                    dot(u, v) <= 0,
                    k * l >= 0,
            ;
        } else {
            assert(norm_sq(u.0, u.1) <= e * e) by (nonlinear_arith)
                requires
                    e == abs(u.0) + abs(u.1),
                    abs(u.0) == (if u.0 >= 0 { u.0 } else { -u.0 }),
                    abs(u.1) == (if u.1 >= 0 { u.1 } else { -u.1 }),
            ;
            assert(dot(u, v) <= e) by (nonlinear_arith)
                requires
                    dot(u, v) * dot(u, v) < norm_sq(u.0, u.1),
                    norm_sq(u.0, u.1) <= e * e,
                    e >= 0,
            ;
            assert(dot(u, v) * (k * l) <= 2 * e * d) by (nonlinear_arith)
                requires
                    0 < dot(u, v) <= e,
                    k * (l - 2) <= d,
                    l >= 4,
                    k >= 1,
            ;
            assert(dot(u, r) <= 3 * e) by (nonlinear_arith)
                requires
                    d > 0,
                    dot(u, r) * d <= dot(u, v) * (k * l) + e * d,
                    dot(u, v) * (k * l) <= 2 * e * d,
            ;
        }
    }
}

} // verus!
