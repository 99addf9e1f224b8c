//! The minimal world-access abstraction the physics core consumes: a
//! store of bodies addressed by handle (their index, in spawn order),
//! each carrying its authoritative box, an optional pushable tag, a
//! velocity marker and the interpolation snapshot.  The resolver reads
//! and writes boxes through this interface only; iteration order is the
//! pinned spawn order, which makes per-tick resolution deterministic.

use vstd::prelude::*;

verus! {

use crate::phys::{PhysAABB, PhysVec, PhysLerpPos, Pushable};

/// Outcome of one resolver call: either nothing was hit, or the handle of
/// the last confirmed-blocking obstacle together with that obstacle's own
/// velocity marker, for callers that react to what was hit (drag against
/// a moving platform).
#[derive(Clone, Copy, PartialEq, Eq, Structural, Debug)]
pub enum CollisionResult {
    Nothing,
    With { other: usize, marked_velocity: PhysVec },
}

/// One entity's physics state.
#[derive(Clone, Copy, PartialEq, Eq, Structural, Debug)]
pub struct PhysBody {
    /// The authoritative box, mutated in place once per tick.
    pub aabb: PhysAABB,
    /// Whether the entity carries the pushable tag.
    pub pushable: bool,
    /// The entity's own velocity marker, handed out in collision results.
    pub marker: PhysVec,
    /// Position snapshot for render interpolation.
    pub lerp: PhysLerpPos,
}

/// The world: all bodies, addressed by spawn index.
pub struct PhysWorld {
    pub bodies: Vec<PhysBody>,
}

impl PhysWorld {
    /// Number of bodies.
    #[verifier::inline]
    pub open spec fn n(self) -> nat {
        self.bodies@.len()
    }

    /// The body at handle `i`.
    #[verifier::inline]
    pub open spec fn body(self, i: int) -> PhysBody {
        self.bodies@[i]
    }

    /// An empty world.
    pub fn new() -> (w: PhysWorld)
        ensures
            w.n() == 0,
    {
        PhysWorld { bodies: Vec::new() }
    }

    /// Number of bodies.
    pub fn len(&self) -> (r: usize)
        ensures
            r == self.n(),
    {
        self.bodies.len()
    }

    /// Spawn a body with the given box: not pushable, zero marker, and
    /// the interpolation snapshot initialised to the spawn position.
    /// Returns the new handle.
    pub fn spawn(&mut self, aabb: PhysAABB) -> (id: usize)
        ensures
            final(self).n() == old(self).n() + 1,
            id == old(self).n(),
            final(self).body(id as int) == (PhysBody {
                aabb,
                pushable: false,
                marker: PhysVec { x: 0, y: 0 },
                lerp: PhysLerpPos { pos: aabb.pos },
            }),
            forall|i: int| 0 <= i < old(self).n() ==> final(self).body(i) == old(self).body(i),
    {
        let id = self.bodies.len();
        self.bodies.push(
            PhysBody {
                aabb,
                pushable: false,
                marker: PhysVec { x: 0, y: 0 },
                lerp: PhysLerpPos { pos: aabb.pos },
            },
        );
        id
    }

    /// Attach the pushable tag to an existing body.
    pub fn insert_pushable(&mut self, id: usize, tag: Pushable)
        requires
            id < old(self).n(),
        ensures
            final(self).n() == old(self).n(),
            final(self).body(id as int) == (PhysBody { pushable: true, ..old(self).body(
                id as int,
            ) }),
            forall|i: int|
                0 <= i < old(self).n() && i != id ==> final(self).body(i) == old(self).body(i),
    {
        let _ = tag;
        let b = self.bodies[id];
        self.bodies[id] = PhysBody { pushable: true, ..b };
    }

    /// Set a body's velocity marker.
    pub fn set_marker(&mut self, id: usize, velocity: PhysVec)
        requires
            id < old(self).n(),
        ensures
            final(self).n() == old(self).n(),
            final(self).body(id as int) == (PhysBody { marker: velocity, ..old(self).body(
                id as int,
            ) }),
            forall|i: int|
                0 <= i < old(self).n() && i != id ==> final(self).body(i) == old(self).body(i),
    {
        let b = self.bodies[id];
        self.bodies[id] = PhysBody { marker: velocity, ..b };
    }

    /// A body's box.
    pub fn aabb(&self, id: usize) -> (r: PhysAABB)
        requires
            id < self.n(),
        ensures
            r == self.body(id as int).aabb,
    {
        self.bodies[id].aabb
    }

    /// Whether a body carries the pushable tag.
    pub fn is_pushable(&self, id: usize) -> (r: bool)
        requires
            id < self.n(),
        ensures
            r == self.body(id as int).pushable,
    {
        self.bodies[id].pushable
    }

    /// A body's velocity marker.
    pub fn marker(&self, id: usize) -> (r: PhysVec)
        requires
            id < self.n(),
        ensures
            r == self.body(id as int).marker,
    {
        self.bodies[id].marker
    }

    /// A body's interpolation snapshot position.
    pub fn lerp_pos(&self, id: usize) -> (r: PhysVec)
        requires
            id < self.n(),
        ensures
            r == self.body(id as int).lerp.pos,
    {
        self.bodies[id].lerp.pos
    }

    /// Overwrite a body's box, leaving its other components alone.
    pub fn set_aabb(&mut self, id: usize, aabb: PhysAABB)
        requires
            id < old(self).n(),
        ensures
            final(self).n() == old(self).n(),
            final(self).body(id as int) == (PhysBody { aabb, ..old(self).body(id as int) }),
            forall|i: int|
                0 <= i < old(self).n() && i != id ==> final(self).body(i) == old(self).body(i),
    {
        let b = self.bodies[id];
        self.bodies[id] = PhysBody { aabb, ..b };
    }

    /// Copy every body's current box position into its interpolation
    /// snapshot, as the fixed-tick driver does at the start of each tick.
    pub fn record_lerp_snapshots(&mut self)
        ensures
            final(self).n() == old(self).n(),
            forall|i: int|
                0 <= i < old(self).n() ==> final(self).body(i) == (PhysBody {
                    lerp: PhysLerpPos { pos: old(self).body(i).aabb.pos },
                    ..old(self).body(i)
                }),
    {
        let n = self.bodies.len();
        let mut id: usize = 0;
        while id < n
            invariant
                n == self.n(),
                id <= n,
                forall|i: int|
                    0 <= i < id ==> self.body(i) == (PhysBody {
                        lerp: PhysLerpPos { pos: old(self).body(i).aabb.pos },
                        ..old(self).body(i)
                    }),
                forall|i: int| id <= i < n ==> self.body(i) == old(self).body(i),
            decreases n - id,
        {
            let b = self.bodies[id];
            self.bodies[id] = PhysBody { lerp: PhysLerpPos { pos: b.aabb.pos }, ..b };
            id = id + 1;
        }
    }
}

} // verus!
