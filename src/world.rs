use vstd::prelude::*;
use crate::boids::{
    default_params_spec, initial_boid, step, Boid, BoidMemory, FlockParams, BOID_COUNT, DT_MAX,
};
use crate::chain::{
    chain_angles, chain_rigid, chains_wf, head_target, initial_chain_spec, joint_size_spec, lemma_solve_keeps,
    solve, update_chains, Joint, SEGMENTS,
};

verus! {

/// The whole simulation: a flock, and the chain that trails each of its agents.
pub struct World {
    pub boid_memory: BoidMemory,
    pub joints: Vec<Vec<Joint>>,
}

/// The chain that agent `k` starts a frame with: its chain in `chains`, or a new one
/// where the collection has none for it yet.
pub open spec fn start_chain(chains: Seq<Vec<Joint>>, k: int) -> Seq<Joint> {
    if k < chains.len() {
        chains[k]@
    } else {
        initial_chain_spec()
    }
}

/// The default flock built from the sample stream `samples`.
pub open spec fn initial_boids(samples: Seq<u32>) -> Seq<Boid> {
    Seq::new(BOID_COUNT as nat, |i: int| initial_boid(samples, i))
}

/// `w` is what one frame of `dt` microseconds makes of the flock `boids` with
/// parameters `params` and the chains `chains`: the flock takes one step; the chain
/// collection grows to one chain per agent and never shrinks; chain `k` is solved from
/// its start toward agent `k` as it stands after the step, keeps its length and joint
/// sizes, is rigid and bends by at least a right angle at every joint; chains beyond the
/// agents are left as they were.
pub open spec fn frame_result(
    boids: Seq<Boid>,
    params: FlockParams,
    chains: Seq<Vec<Joint>>,
    dt: int,
    w: World,
) -> bool {
    &&& w.boid_memory.params == params
    &&& w.boid_memory.boids@ == step(boids, params, dt)
    &&& w.joints@.len() == if boids.len() > chains.len() { boids.len() } else { chains.len() }
    &&& forall|k: int| 0 <= k < boids.len() ==> {
        let b = #[trigger] w.boid_memory.boids@[k];
        let target = head_target(b.translation, b.velocity, dt);
        &&& w.joints@[k]@ == solve(start_chain(chains, k), target, 0)
        &&& chain_rigid(w.joints@[k]@, target)
        &&& chain_angles(w.joints@[k]@)
        &&& w.joints@[k]@.len() == start_chain(chains, k).len()
        &&& forall|m: int| 0 <= m < w.joints@[k]@.len() ==>
            (#[trigger] w.joints@[k]@[m]).size == start_chain(chains, k)[m].size
    }
    &&& forall|k: int| boids.len() <= k < w.joints@.len() ==> #[trigger] w.joints@[k] == chains[k]
}

/// A new chain has `SEGMENTS` joints with the sizes of the joint size table.
pub proof fn lemma_new_chain_shape()
    ensures
        initial_chain_spec().len() == SEGMENTS,
        forall|m: int| 0 <= m < SEGMENTS ==> (#[trigger] initial_chain_spec()[m]).size == joint_size_spec(m),
{
}

impl World {
    pub open spec fn wf(&self) -> bool {
        &&& self.boid_memory.wf()
        &&& chains_wf(self.joints@)
    }

    /// The default flock built from the sample stream `samples`, with no chains yet.
    pub fn new(samples: &Vec<u32>) -> (r: World)
        requires
            samples.len() >= 4 * BOID_COUNT,
        ensures
            r.wf(),
            r.boid_memory.params == default_params_spec(),
            r.boid_memory.boids@ == initial_boids(samples@),
            r.joints@.len() == 0,
    {
        let boid_memory = BoidMemory::from_samples(samples);
        assert(boid_memory.boids@ =~= initial_boids(samples@));
        World { boid_memory, joints: Vec::new() }
    }

    /// One frame of `dt` microseconds: the flock moves, then the chains are brought up
    /// to one per agent and each follows its agent as the agent now stands.
    pub fn update(&mut self, dt: u64)
        requires
            old(self).wf(),
            dt <= DT_MAX,
        ensures
            final(self).wf(),
            frame_result(
                old(self).boid_memory.boids@,
                old(self).boid_memory.params,
                old(self).joints@,
                dt as int,
                *final(self),
            ),
    {
        let ghost chains0 = self.joints@;
        self.boid_memory.update(dt);
        update_chains(&mut self.joints, self.boid_memory.boids(), dt);
        proof {
            assert forall|k: int| 0 <= k < self.boid_memory.boids@.len() implies {
                &&& self.joints@[k]@.len() == start_chain(chains0, k).len()
                &&& forall|m: int| 0 <= m < self.joints@[k]@.len() ==>
                    (#[trigger] self.joints@[k]@[m]).size == start_chain(chains0, k)[m].size
            } by {
                let b = self.boid_memory.boids@[k];
                lemma_solve_keeps(start_chain(chains0, k), head_target(b.translation, b.velocity, dt as int), 0);
            }
        }
    }
}

/// The state a host keeps between frames: the world, built on the first frame.
pub struct Memory {
    pub world: Option<World>,
}

impl Memory {
    /// Memory before the first frame.
    pub fn new() -> (r: Memory)
        ensures
            r.world.is_none(),
    {
        Memory { world: None }
    }

    /// One frame of `dt` microseconds. On the first frame the world is first built from
    /// the sample stream `samples` (the default flock, no chains); later frames do not
    /// read `samples`. Then the world takes one frame.
    pub fn update(&mut self, dt: u64, samples: &Vec<u32>)
        requires
            old(self).world.is_some() ==> old(self).world.unwrap().wf(),
            old(self).world.is_none() ==> samples.len() >= 4 * BOID_COUNT,
            dt <= DT_MAX,
        ensures
            final(self).world.is_some(),
            final(self).world.unwrap().wf(),
            old(self).world.is_some() ==> frame_result(
                old(self).world.unwrap().boid_memory.boids@,
                old(self).world.unwrap().boid_memory.params,
                old(self).world.unwrap().joints@,
                dt as int,
                final(self).world.unwrap(),
            ),
            old(self).world.is_none() ==> frame_result(
                initial_boids(samples@),
                default_params_spec(),
                Seq::empty(),
                dt as int,
                final(self).world.unwrap(),
            ),
    {
        let mut world = match self.world.take() {
            Some(w) => w,
            None => {
                let w = World::new(samples);
                assert(w.joints@ =~= Seq::<Vec<Joint>>::empty());
                w
            },
        };
        world.update(dt);
        self.world = Some(world);
    }
}

} // verus!
