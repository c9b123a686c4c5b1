//! The orbiting bodies of the scene, each paired with its trail.
use crate::trail::{keep_last, Trail, TRAIL_LEN};
use vstd::prelude::*;

verus! {

/// The bodies of the scene in the order they were added, with one trail of
/// positions per body, kept at the same index.
pub struct OrbitRegistry<B, P> {
    bodies: Vec<B>,
    trails: Vec<Trail<P>>,
}

impl<B, P> OrbitRegistry<B, P> {
    #[verifier::type_invariant]
    spec fn paired(self) -> bool {
        &&& self.bodies@.len() == self.trails@.len()
        &&& forall|i: int| 0 <= i < self.trails@.len() ==> #[trigger] self.trails@[i]@.len() <= TRAIL_LEN
    }

    /// The bodies, in the order they were added.
    pub closed spec fn bodies(&self) -> Seq<B> {
        self.bodies@
    }

    /// The contents of the trails: `trails()[i]` belongs to `bodies()[i]`.
    pub closed spec fn trails(&self) -> Seq<Seq<P>> {
        Seq::new(self.trails@.len(), |i: int| self.trails@[i]@)
    }

    /// Each body has exactly one trail, and no trail holds more than
    /// `TRAIL_LEN` positions.
    pub open spec fn one_bounded_trail_per_body(&self) -> bool {
        &&& self.trails().len() == self.bodies().len()
        &&& forall|i: int| 0 <= i < self.trails().len() ==> #[trigger] self.trails()[i].len() <= TRAIL_LEN
    }

    /// A registry of the given bodies, each with an empty trail.
    pub fn new(bodies: Vec<B>) -> (r: Self)
        ensures
            r.bodies() == bodies@,
            r.one_bounded_trail_per_body(),
            r.trails() == Seq::new(bodies@.len(), |i: int| Seq::<P>::empty()),
    {
        let n = bodies.len();
        let mut trails: Vec<Trail<P>> = Vec::new();
        let mut k: usize = 0;
        while k < n
            invariant
                k <= n,
                trails@.len() == k,
                forall|i: int| 0 <= i < k ==> #[trigger] trails@[i]@ == Seq::<P>::empty(),
            decreases n - k,
        {
            trails.push(Trail::new());
            k = k + 1;
        }
        let r = OrbitRegistry { bodies, trails };
        assert(r.trails() =~= Seq::new(bodies@.len(), |i: int| Seq::<P>::empty()));
        r
    }

    /// The number of bodies.
    pub fn len(&self) -> (n: usize)
        ensures
            n == self.bodies().len(),
            self.one_bounded_trail_per_body(),
    {
        proof {
            use_type_invariant(self);
        }
        self.bodies.len()
    }

    /// The `i`-th body.
    pub fn body(&self, i: usize) -> (b: &B)
        requires
            i < self.bodies().len(),
        ensures
            *b == self.bodies()[i as int],
    {
        &self.bodies[i]
    }

    /// The trail of the `i`-th body.
    pub fn trail(&self, i: usize) -> (t: &Trail<P>)
        requires
            i < self.bodies().len(),
        ensures
            t@ == self.trails()[i as int],
    {
        proof {
            use_type_invariant(self);
        }
        &self.trails[i]
    }

    /// Replaces the `i`-th body, leaving its trail as it is.
    pub fn set_body(&mut self, i: usize, b: B)
        requires
            i < old(self).bodies().len(),
        ensures
            final(self).bodies() == old(self).bodies().update(i as int, b),
            final(self).trails() == old(self).trails(),
            final(self).one_bounded_trail_per_body(),
    {
        proof {
            use_type_invariant(&*self);
        }
        let (mut bodies, trails) = self.take_parts();
        bodies.set(i, b);
        *self = OrbitRegistry { bodies, trails };
        assert(self.trails() =~= old(self).trails());
    }

    /// Records the position `p` at the end of the trail of the `i`-th body;
    /// the trail keeps its last `TRAIL_LEN` positions.
    pub fn record(&mut self, i: usize, p: P)
        requires
            i < old(self).bodies().len(),
        ensures
            final(self).bodies() == old(self).bodies(),
            final(self).trails() == old(self).trails().update(
                i as int,
                keep_last(old(self).trails()[i as int].push(p), TRAIL_LEN as nat),
            ),
            final(self).one_bounded_trail_per_body(),
    {
        proof {
            use_type_invariant(&*self);
        }
        let (bodies, mut trails) = self.take_parts();
        trails[i].push(p);
        *self = OrbitRegistry { bodies, trails };
        assert(self.trails() =~= old(self).trails().update(
            i as int,
            keep_last(old(self).trails()[i as int].push(p), TRAIL_LEN as nat),
        ));
    }

    /// Moves the bodies and trails out, leaving an empty registry behind.
    fn take_parts(&mut self) -> (parts: (Vec<B>, Vec<Trail<P>>))
        ensures
            parts.0@ == old(self).bodies@,
            parts.1@ == old(self).trails@,
            parts.0@.len() == parts.1@.len(),
            forall|i: int| 0 <= i < parts.1@.len() ==> #[trigger] parts.1@[i]@.len() <= TRAIL_LEN,
    {
        proof {
            use_type_invariant(&*self);
        }
        let mut emptied = OrbitRegistry { bodies: Vec::new(), trails: Vec::new() };
        std::mem::swap(&mut emptied, self);
        let OrbitRegistry { bodies, trails } = emptied;
        (bodies, trails)
    }

    /// Adds a body with an empty trail and returns its index.
    pub fn add_body(&mut self, b: B) -> (idx: usize)
        ensures
            idx == old(self).bodies().len(),
            final(self).bodies() == old(self).bodies().push(b),
            final(self).trails() == old(self).trails().push(Seq::<P>::empty()),
            final(self).one_bounded_trail_per_body(),
    {
        proof {
            use_type_invariant(&*self);
        }
        let idx = self.bodies.len();
        let (mut bodies, mut trails) = self.take_parts();
        bodies.push(b);
        trails.push(Trail::new());
        *self = OrbitRegistry { bodies, trails };
        assert(self.trails() =~= old(self).trails().push(Seq::<P>::empty()));
        idx
    }
}

} // verus!
