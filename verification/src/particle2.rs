//! A simpler particle system: particles of any type that knows whether
//! it is still alive, kept in a pool of bounded size, and fed by an
//! emitter that releases one particle per fixed delay of the clock.  The
//! clock is read, as nanoseconds since a fixed instant, by the caller.

use vstd::prelude::*;

verus! {

broadcast use vstd::seq_lib::group_to_multiset_ensures;

/// What a particle type offers the system that holds it.
pub trait Particle: Sized {
    /// Whether this particle should still be drawn.
    spec fn is_alive(&self) -> bool;

    /// A fresh particle.
    fn new() -> Self;

    /// Whether this particle should still be drawn.
    fn alive(&self) -> (r: bool)
        ensures
            r == self.is_alive(),
    ;
}

/// The particles left by sweeping `ps` from position `i` on: a live
/// particle is passed over; a dead one is replaced by the last particle,
/// which is then looked at in its place.
pub open spec fn sweep<P: Particle>(ps: Seq<P>, i: int) -> Seq<P>
    decreases ps.len() - i,
{
    if i < 0 || i >= ps.len() {
        ps
    } else if ps[i].is_alive() {
        sweep(ps, i + 1)
    } else {
        sweep(ps.update(i, ps.last()).drop_last(), i)
    }
}

/// A very simple particle emitter: one particle every `delay_nanos`
/// nanoseconds of the clock, the clock being read as nanoseconds since
/// some fixed instant.
pub struct Emitter {
    delay_nanos: u64,
    last_emitted: u64,
}

impl Emitter {
    /// Delay between emitting particles.
    pub closed spec fn delay(&self) -> u64 {
        self.delay_nanos
    }

    /// When the last particle was due.
    pub closed spec fn last(&self) -> u64 {
        self.last_emitted
    }

    /// An emitter that emits every `delay_nanos` nanoseconds, counting
    /// from `now`.
    pub fn new(delay_nanos: u64, now: u64) -> (r: Self)
        ensures
            r.delay() == delay_nanos,
            r.last() == now,
    {
        Emitter { delay_nanos, last_emitted: now }
    }

    /// Whether a particle is due at `now`: more than the delay has passed
    /// since the last one was due.  If so, the next one is due one delay
    /// later, so that calling this in a loop with the same `now` ends.
    pub fn poll(&mut self, now: u64) -> (r: bool)
        ensures
            r == (now - old(self).last() > old(self).delay()),
            r ==> final(self).last() == old(self).last() + old(self).delay(),
            r ==> final(self).delay() == old(self).delay(),
            !r ==> *final(self) == *old(self),
    {
        if now > self.last_emitted && now - self.last_emitted > self.delay_nanos {
            self.last_emitted = self.last_emitted + self.delay_nanos;
            true
        } else {
            false
        }
    }
}

/// The particles of a system, at most `limit` of them once emission is
/// done through [`ParticleSystem::add`].
pub struct ParticleSystem<P: Particle> {
    particles: Vec<P>,
    max_particles: usize,
}

impl<P: Particle> ParticleSystem<P> {
    pub closed spec fn live(&self) -> Seq<P> {
        self.particles@
    }

    pub closed spec fn limit(&self) -> nat {
        self.max_particles as nat
    }

    /// An empty system that will hold at most `limit` particles.
    pub fn new(limit: usize) -> (r: Self)
        ensures
            r.live() == Seq::<P>::empty(),
            r.limit() == limit,
    {
        ParticleSystem { particles: Vec::with_capacity(limit), max_particles: limit }
    }

    /// Number of particles held.
    pub fn count(&self) -> (r: usize)
        ensures
            r == self.live().len(),
    {
        self.particles.len()
    }

    /// Removes every particle that is no longer alive: a removed
    /// particle's place is taken by the last one, so the order of the
    /// survivors is that of `sweep`.
    pub fn remove_dead(&mut self)
        ensures
            final(self).limit() == old(self).limit(),
            final(self).live() == sweep(old(self).live(), 0),
            forall|i: int| 0 <= i < final(self).live().len() ==> #[trigger] final(self).live()[i].is_alive(),
            forall|p: P| p.is_alive() ==> #[trigger] final(self).live().to_multiset().count(p)
                == old(self).live().to_multiset().count(p),
            forall|p: P| !p.is_alive() ==> #[trigger] final(self).live().to_multiset().count(p) == 0,
    {
        let ghost start = self.particles@;
        let mut i: usize = 0;
        while i < self.particles.len()
            invariant
                i <= self.particles@.len(),
                self.max_particles == old(self).max_particles,
                start == old(self).particles@,
                sweep(self.particles@, i as int) == sweep(start, 0),
                forall|j: int| 0 <= j < i ==> #[trigger] self.particles@[j].is_alive(),
                forall|p: P| p.is_alive() ==> #[trigger] self.particles@.to_multiset().count(p)
                    == start.to_multiset().count(p),
            decreases self.particles@.len() - i,
        {
            if !self.particles[i].alive() {
                let ghost before = self.particles@;
                let ghost dead = before[i as int];
                self.particles.swap_remove(i);
                proof {
                    let moved = before.update(i as int, before.last());
                    assert(moved.drop_last() == moved.remove(moved.len() - 1));
                    assert forall|p: P| p.is_alive() implies #[trigger] self.particles@.to_multiset().count(p)
                        == start.to_multiset().count(p) by {
                        assert(p != dead);
                        assert(moved.to_multiset() == before.to_multiset().insert(before.last()).remove(dead));
                        assert(self.particles@.to_multiset() == moved.to_multiset().remove(moved[moved.len() - 1]));
                    }
                }
            } else {
                i = i + 1;
            }
        }
        proof {
            assert forall|p: P| !p.is_alive() implies #[trigger] self.particles@.to_multiset().count(p) == 0 by {
                if self.particles@.to_multiset().count(p) > 0 {
                    assert(self.particles@.contains(p));
                    let j = choose|j: int| 0 <= j < self.particles@.len() && self.particles@[j] == p;
                    assert(self.particles@[j].is_alive());
                }
            }
        }
    }

    /// Adds a newly emitted particle if there is room below the limit;
    /// says whether it did.
    pub fn add(&mut self, particle: P) -> (r: bool)
        ensures
            r == (old(self).live().len() < old(self).limit()),
            final(self).live() == if r {
                old(self).live().push(particle)
            } else {
                old(self).live()
            },
            final(self).limit() == old(self).limit(),
    {
        if self.particles.len() < self.max_particles {
            self.particles.push(particle);
            true
        } else {
            false
        }
    }

    /// Particle `i`, to be moved and aged in place; the system keeps as
    /// many particles.
    pub fn particle_mut(&mut self, i: usize) -> (r: &mut P)
        requires
            i < old(self).live().len(),
        ensures
            *r == old(self).live()[i as int],
            final(self).live() == old(self).live().update(i as int, *final(r)),
            final(self).limit() == old(self).limit(),
    {
        &mut self.particles[i]
    }

    /// One frame of bookkeeping at clock reading `now`: the dead go (as
    /// `remove_dead` says), then, while there are fewer particles than the
    /// limit, fresh ones (each made by `P::new`) come as long as the
    /// emitter says one is due.
    /// Returns how many came.
    pub fn update(&mut self, emitter: &mut Emitter, now: u64) -> (added: usize)
        ensures
            final(self).limit() == old(self).limit(),
            final(self).live().len() == sweep(old(self).live(), 0).len() + added,
            final(self).live().subrange(0, sweep(old(self).live(), 0).len() as int) == sweep(
                old(self).live(),
                0,
            ),
            forall|q: int| sweep(old(self).live(), 0).len() <= q < final(self).live().len() ==> call_ensures(
                P::new,
                (),
                #[trigger] final(self).live()[q],
            ),
            added > 0 ==> final(self).live().len() <= final(self).limit(),
            old(self).live().len() <= old(self).limit() ==> final(self).live().len() <= final(self).limit(),
            final(emitter).delay() == old(emitter).delay(),
            final(emitter).last() == old(emitter).last() + added * old(emitter).delay(),
            final(self).live().len() < final(self).limit() ==> !(now - final(emitter).last()
                > final(emitter).delay()),
    {
        self.remove_dead();
        let ghost survivors = self.particles@;
        proof {
            lemma_sweep_shrinks(old(self).particles@, 0);
        }
        proof {
            assert(survivors.len() <= old(self).particles@.len()) by {
                lemma_sweep_shrinks(old(self).particles@, 0);
            }
        }
        let mut added: usize = 0;
        while self.particles.len() < self.max_particles
            invariant
                self.max_particles == old(self).max_particles,
                survivors == sweep(old(self).particles@, 0),
                survivors.len() <= old(self).particles@.len(),
                self.particles@.len() == survivors.len() + added,
                self.particles@.subrange(0, survivors.len() as int) == survivors,
                forall|q: int| survivors.len() <= q < self.particles@.len() ==> call_ensures(
                    P::new,
                    (),
                    #[trigger] self.particles@[q],
                ),
                added > 0 ==> self.particles@.len() <= self.max_particles,
                old(self).particles@.len() <= old(self).max_particles ==> self.particles@.len()
                    <= self.max_particles,
                emitter.delay() == old(emitter).delay(),
                emitter.last() == old(emitter).last() + added * old(emitter).delay(),
            ensures
                self.max_particles == old(self).max_particles,
                self.particles@.len() == survivors.len() + added,
                self.particles@.subrange(0, survivors.len() as int) == survivors,
                forall|q: int| survivors.len() <= q < self.particles@.len() ==> call_ensures(
                    P::new,
                    (),
                    #[trigger] self.particles@[q],
                ),
                added > 0 ==> self.particles@.len() <= self.max_particles,
                old(self).particles@.len() <= old(self).max_particles ==> self.particles@.len()
                    <= self.max_particles,
                emitter.delay() == old(emitter).delay(),
                emitter.last() == old(emitter).last() + added * old(emitter).delay(),
                self.particles@.len() < self.max_particles ==> !(now - emitter.last()
                    > emitter.delay()),
            decreases self.max_particles - self.particles@.len(),
        {
            if emitter.poll(now) {
                let p = P::new();
                self.particles.push(p);
                proof {
                    let d = old(emitter).delay();
                    assert((added + 1) * d == added * d + d) by (nonlinear_arith);
                }
                added = added + 1;
                assert(self.particles@.subrange(0, survivors.len() as int) == survivors);
            } else {
                break;
            }
        }
        added
    }
}

/// Sweeping never adds particles.
pub proof fn lemma_sweep_shrinks<P: Particle>(ps: Seq<P>, i: int)
    ensures
        sweep(ps, i).len() <= ps.len(),
    decreases ps.len() - i,
{
    if 0 <= i < ps.len() {
        if ps[i].is_alive() {
            lemma_sweep_shrinks(ps, i + 1);
        } else {
            lemma_sweep_shrinks(ps.update(i, ps.last()).drop_last(), i);
        }
    }
}

/// Starting from at most `limit` particles, adding never goes over the limit.
pub proof fn law_add_keeps_limit<P>(live: Seq<P>, limit: nat, p: P)
    requires
        live.len() <= limit,
    ensures
        (if live.len() < limit {
            live.push(p)
        } else {
            live
        }).len() <= limit,
{
}

} // verus!
