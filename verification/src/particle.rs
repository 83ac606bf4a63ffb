//! Particle systems: the transitions of particle properties over a
//! particle's life, and the bookkeeping of the live particles.  The
//! floating-point physics (emission shapes, interpolation, motion) runs
//! around this module.

use vstd::prelude::*;

verus! {

/// A structure that represents a transition between
/// set properties.
/// So for instance you could use Transition<Color> and define
/// a transition of colors from red to orange to do smoke.
/// You could also use Transition<f32> to just represent a size
/// curve.
/// It assumes that all time values range from 0 to 1.
pub enum Transition<T: Copy> {
    Fixed(T),
    Range(T, T),
}

impl<T: Copy> Transition<T> {
    /// A property that stays the same over the whole life.
    pub fn fixed(value: T) -> (r: Self)
        ensures
            r == Transition::Fixed(value),
    {
        Transition::Fixed(value)
    }

    /// A property that goes from `from` at birth to `to` at death.
    pub fn range(from: T, to: T) -> (r: Self)
        ensures
            r == Transition::Range(from, to),
    {
        Transition::Range(from, to)
    }
}

/// The live particles of a particle system, and how many there may be.
pub struct ParticlePool<P> {
    particles: Vec<P>,
    max_particles: usize,
}

impl<P> ParticlePool<P> {
    pub closed spec fn live(&self) -> Seq<P> {
        self.particles@
    }

    pub closed spec fn limit(&self) -> usize {
        self.max_particles
    }

    /// An empty pool with room for no particle yet.
    pub fn new() -> (r: Self)
        ensures
            r.live() == Seq::<P>::empty(),
            r.limit() == 0,
    {
        ParticlePool { particles: Vec::new(), max_particles: 0 }
    }

    /// Set maximum number of particles.
    pub fn set_limit(&mut self, count: usize)
        ensures
            final(self).live() == old(self).live(),
            final(self).limit() == count,
    {
        self.max_particles = count;
        self.particles.reserve(count);
    }

    /// Number of living particles.
    pub fn count(&self) -> (r: usize)
        ensures
            r == self.live().len(),
    {
        self.particles.len()
    }

    /// Adds a newly emitted particle, as long as there are fewer live
    /// particles than the limit; says whether it did.
    pub fn emit_one(&mut self, particle: P) -> (r: bool)
        ensures
            r == (old(self).live().len() < old(self).limit()),
            final(self).live() == if r {
                old(self).live().push(particle)
            } else {
                old(self).live()
            },
            final(self).limit() == old(self).limit(),
    {
        if self.particles.len() < self.max_particles {
            self.particles.push(particle);
            true
        } else {
            false
        }
    }

    /// Particle `i`, to be moved and aged in place; the pool keeps as many
    /// particles.
    pub fn particle_mut(&mut self, i: usize) -> (r: &mut P)
        requires
            i < old(self).live().len(),
        ensures
            *r == old(self).live()[i as int],
            final(self).live() == old(self).live().update(i as int, *final(r)),
            final(self).limit() == old(self).limit(),
    {
        &mut self.particles[i]
    }

    /// The live particles.
    pub fn particles(&self) -> (r: &Vec<P>)
        ensures
            r@ == self.live(),
    {
        &self.particles
    }

    /// Drops every particle whose flag in `alive` is false, keeping the
    /// order of the others.  `alive[i]` tells whether particle `i` is
    /// still younger than its maximum age.
    pub fn retain_alive(&mut self, alive: &Vec<bool>)
        requires
            alive@.len() == old(self).live().len(),
        ensures
            final(self).live() == kept(old(self).live(), alive@),
            final(self).limit() == old(self).limit(),
    {
        let mut kept_particles: Vec<P> = Vec::new();
        let mut rest: Vec<P> = Vec::new();
        std::mem::swap(&mut rest, &mut self.particles);
        let ghost all = rest@;
        let mut i: usize = 0;
        while i < alive.len()
            invariant
                all.len() == alive@.len(),
                i <= alive@.len(),
                rest@ == all.skip(i as int),
                kept_particles@ == kept(all.take(i as int), alive@.take(i as int)),
            decreases alive@.len() - i,
        {
            let p = rest.remove(0);
            assert(all.take(i as int + 1).drop_last() == all.take(i as int));
            assert(alive@.take(i as int + 1).drop_last() == alive@.take(i as int));
            assert(rest@ == all.skip(i as int + 1));
            if alive[i] {
                kept_particles.push(p);
            }
            i = i + 1;
        }
        assert(all.take(all.len() as int) == all);
        assert(alive@.take(alive@.len() as int) == alive@);
        self.particles = kept_particles;
    }
}

/// The particles of `ps` whose flag in `flags` is set, in order.
pub open spec fn kept<P>(ps: Seq<P>, flags: Seq<bool>) -> Seq<P>
    decreases ps.len(),
{
    if ps.len() == 0 || flags.len() == 0 {
        Seq::empty()
    } else {
        let front = kept(ps.drop_last(), flags.drop_last());
        if flags.last() {
            front.push(ps.last())
        } else {
            front
        }
    }
}

/// Whatever the flags, the kept particles are never more than the live ones.
pub proof fn law_kept_never_grows<P>(ps: Seq<P>, flags: Seq<bool>)
    ensures
        kept(ps, flags).len() <= ps.len(),
    decreases ps.len(),
{
    if ps.len() != 0 && flags.len() != 0 {
        law_kept_never_grows(ps.drop_last(), flags.drop_last());
    }
}

/// The number of set flags.
pub open spec fn count_set(flags: Seq<bool>) -> nat
    decreases flags.len(),
{
    if flags.len() == 0 {
        0
    } else {
        count_set(flags.drop_last()) + if flags.last() {
            1nat
        } else {
            0nat
        }
    }
}

/// The particles kept are exactly those whose flag is set, in their
/// order: there are as many as set flags, and the particle at position
/// `j` with its flag set is kept, at the position given by the number of
/// set flags before `j`.
pub proof fn law_kept_by_own_flag<P>(ps: Seq<P>, flags: Seq<bool>)
    requires
        ps.len() == flags.len(),
    ensures
        kept(ps, flags).len() == count_set(flags),
        forall|j: int|
            0 <= j < ps.len() && #[trigger] flags[j] ==> kept(ps, flags)[count_set(flags.take(j)) as int]
                == ps[j],
    decreases ps.len(),
{
    if ps.len() > 0 {
        let n = ps.len() - 1;
        law_kept_by_own_flag(ps.drop_last(), flags.drop_last());
        assert(flags.drop_last() == flags.take(n));
        assert forall|j: int| 0 <= j < ps.len() && #[trigger] flags[j] implies kept(ps, flags)[count_set(flags.take(j)) as int] == ps[j] by {
            if j < n {
                assert(flags.take(j) == flags.drop_last().take(j));
                assert(flags.drop_last()[j] == flags[j]);
                lemma_count_prefix_smaller(flags.drop_last(), j);
            } else {
                assert(flags.take(j) == flags.drop_last());
            }
        }
    }
}

/// A prefix that stops before a set flag has fewer set flags than the
/// whole.
proof fn lemma_count_prefix_smaller(flags: Seq<bool>, j: int)
    requires
        0 <= j < flags.len(),
        flags[j],
    ensures
        count_set(flags.take(j)) < count_set(flags),
    decreases flags.len(),
{
    let n = flags.len() - 1;
    if j == n {
        assert(flags.drop_last() == flags.take(j));
    } else {
        assert(flags.drop_last()[j] == flags[j]);
        assert(flags.take(j) == flags.drop_last().take(j));
        lemma_count_prefix_smaller(flags.drop_last(), j);
    }
}

/// A pool that holds no more particles than its limit keeps doing so
/// through emitting (`emit_one`) and dropping the dead (`retain_alive`);
/// moving a particle (`particle_mut`) keeps their number.
pub proof fn law_emission_bounded<P>(live: Seq<P>, limit: usize, p: P, flags: Seq<bool>)
    requires
        live.len() <= limit,
    ensures
        (if live.len() < limit {
            live.push(p)
        } else {
            live
        }).len() <= limit,
        kept(live, flags).len() <= limit,
{
    law_kept_never_grows(live, flags);
}

} // verus!
