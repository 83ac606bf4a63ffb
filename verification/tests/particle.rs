use ggez_goodies::particle::{ParticlePool, Transition};
use ggez_goodies::particle2::{Emitter, Particle, ParticleSystem};

#[test]
fn transitions() {
    assert!(matches!(Transition::fixed(1.5f32), Transition::Fixed(v) if v == 1.5));
    assert!(matches!(Transition::range(0u8, 9u8), Transition::Range(0, 9)));
}

#[test]
fn pool_emits_up_to_the_limit() {
    let mut pool: ParticlePool<u32> = ParticlePool::new();
    assert_eq!(pool.count(), 0);
    // With a limit of 0 no particle gets in.
    assert!(!pool.emit_one(1));
    assert_eq!(pool.count(), 0);
    pool.set_limit(2);
    assert!(pool.emit_one(2));
    assert!(pool.emit_one(3));
    assert!(!pool.emit_one(4));
    assert_eq!(pool.particles(), &vec![2, 3]);
}

#[test]
fn pool_keeps_the_live_ones_in_order() {
    let mut pool: ParticlePool<u32> = ParticlePool::new();
    pool.set_limit(10);
    for i in 0..5 {
        pool.emit_one(i);
    }
    pool.retain_alive(&vec![true, false, true, false, true]);
    assert_eq!(pool.particles(), &vec![0, 2, 4]);
    for i in 0..pool.count() {
        *pool.particle_mut(i) += 10;
    }
    assert_eq!(pool.particles(), &vec![10, 12, 14]);
    pool.retain_alive(&vec![false, false, false]);
    assert_eq!(pool.count(), 0);
}

/// A particle that lives for a number of ticks.
#[derive(Debug, Clone, Copy, PartialEq)]
struct Tick {
    age: u32,
    max_age: u32,
}

impl Particle for Tick {
    fn is_alive(&self) -> bool {
        self.age < self.max_age
    }
    fn new() -> Self {
        Tick { age: 0, max_age: 3 }
    }
    fn alive(&self) -> bool {
        self.age < self.max_age
    }
}

#[test]
fn system_removes_dead_and_respects_limit() {
    let mut sys: ParticleSystem<Tick> = ParticleSystem::new(3);
    assert!(sys.add(Tick { age: 5, max_age: 3 }));
    assert!(sys.add(Tick::new()));
    assert!(sys.add(Tick { age: 3, max_age: 3 }));
    assert!(!sys.add(Tick::new()));
    assert_eq!(sys.count(), 3);
    sys.remove_dead();
    assert_eq!(sys.count(), 1);
    assert_eq!(*sys.particle_mut(0), Tick::new());
    assert!(sys.add(Tick { age: 1, max_age: 2 }));
    for i in 0..sys.count() {
        sys.particle_mut(i).age += 1;
    }
    sys.remove_dead();
    assert_eq!(sys.count(), 1);
    assert_eq!(*sys.particle_mut(0), Tick { age: 1, max_age: 3 });
}

#[test]
fn remove_dead_fills_holes_from_the_end() {
    let mut sys: ParticleSystem<Tick> = ParticleSystem::new(5);
    let dead = Tick { age: 9, max_age: 1 };
    for age in [0, 9, 1, 9, 2] {
        sys.add(if age == 9 { dead } else { Tick { age, max_age: 5 } });
    }
    sys.remove_dead();
    // [a0, dead, a1, dead, a2] -> [a0, a2, a1]
    let ages: Vec<u32> = (0..sys.count()).map(|i| sys.particle_mut(i).age).collect();
    assert_eq!(ages, vec![0, 2, 1]);
}

#[test]
fn emitter_polls_once_per_delay() {
    let mut e = Emitter::new(10, 100);
    assert!(!e.poll(105));
    assert!(!e.poll(110));
    assert!(e.poll(125));
    // The next one is due 10 later than the last: at 125 one more is due.
    assert!(e.poll(125));
    assert!(!e.poll(125));
    // A clock reading before the last emission emits nothing.
    assert!(!e.poll(50));
}

#[test]
fn update_emits_while_below_the_limit() {
    let mut sys: ParticleSystem<Tick> = ParticleSystem::new(3);
    sys.add(Tick { age: 9, max_age: 1 });
    let mut e = Emitter::new(10, 0);
    // At 100 up to nine particles are due, but only three fit.
    assert_eq!(sys.update(&mut e, 100), 3);
    assert_eq!(sys.count(), 3);
    // No emission was spent beyond the limit.
    assert!(e.poll(100));
    // With nothing dead and the system full, nothing comes.
    let mut e2 = Emitter::new(10, 0);
    assert_eq!(sys.update(&mut e2, 100), 0);
    assert!(e2.poll(100));
    // With room but nothing due, nothing comes.
    let mut sys2: ParticleSystem<Tick> = ParticleSystem::new(3);
    let mut e3 = Emitter::new(10, 95);
    assert_eq!(sys2.update(&mut e3, 100), 0);
    assert_eq!(sys2.count(), 0);
}
