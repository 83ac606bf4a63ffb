//! A tiny entity system: entities are numbered in the order they are
//! created, and each has a queue of events.  Events sent during a frame
//! are delivered when the frame is finished.  The components themselves,
//! stored by type and run over in parallel, live in the layer around this
//! library.

use vstd::prelude::*;

verus! {

/// An example component.
#[derive(Clone, Default, Debug)]
pub struct Component {
    pub data: i32,
}

/// The components of one type, one per entity, in entity order.
#[derive(Clone, Default, Debug)]
pub struct VecResource<T> {
    pub data: Vec<T>,
}

impl<T> VecResource<T> {
    pub fn new() -> (r: Self)
        ensures
            r.data@ == Seq::<T>::empty(),
    {
        VecResource { data: Vec::new() }
    }
}

/// An entity, named by its number.
pub struct Entity(pub u32);

pub type InputChannel<T> = Vec<T>;

/// One queue of events per entity.
pub struct EventSender<E> {
    channels: Vec<Vec<E>>,
}

impl<E> EventSender<E> {
    /// The queue of each entity, in entity order.
    pub closed spec fn queues(&self) -> Seq<Seq<E>> {
        Seq::new(self.channels@.len(), |i: int| self.channels@[i]@)
    }

    /// No queue yet.
    pub fn new() -> (r: Self)
        ensures
            r.queues() == Seq::<Seq<E>>::empty(),
    {
        EventSender { channels: Vec::new() }
    }

    /// Appends `event` to the queue of `entity`, which must exist.
    pub fn send_to_entity(&mut self, entity: Entity, event: E)
        requires
            (entity.0 as int) < old(self).queues().len(),
        ensures
            final(self).queues() == old(self).queues().update(
                entity.0 as int,
                old(self).queues()[entity.0 as int].push(event),
            ),
    {
        let ghost before = self.queues();
        let i = entity.0 as usize;
        let mut q: Vec<E> = Vec::new();
        std::mem::swap(&mut q, &mut self.channels[i]);
        q.push(event);
        self.channels.set(i, q);
        assert(self.queues() == before.update(i as int, before[i as int].push(event)));
    }

    /// Empties every queue.
    pub fn clear(&mut self)
        ensures
            final(self).queues().len() == old(self).queues().len(),
            forall|i: int| 0 <= i < final(self).queues().len() ==> #[trigger] final(self).queues()[i]
                == Seq::<E>::empty(),
    {
        let n = self.channels.len();
        let mut i: usize = 0;
        while i < n
            invariant
                n == self.channels@.len(),
                i <= n,
                forall|j: int| 0 <= j < i ==> #[trigger] self.channels@[j]@ == Seq::<E>::empty(),
            decreases n - i,
        {
            self.channels.set(i, Vec::new());
            i = i + 1;
        }
    }

    /// Adds an empty queue for a new entity.
    pub fn add_channel(&mut self)
        ensures
            final(self).queues() == old(self).queues().push(Seq::<E>::empty()),
    {
        self.channels.push(Vec::new());
        assert(self.queues() == old(self).queues().push(Seq::<E>::empty()));
    }

    /// The events queued for `entity`.
    pub fn events(&self, entity: &Entity) -> (r: &[E])
        requires
            (entity.0 as int) < self.queues().len(),
        ensures
            r@ == self.queues()[entity.0 as int],
    {
        self.channels[entity.0 as usize].as_slice()
    }

    /// Number of queues.
    pub fn len(&self) -> (r: usize)
        ensures
            r == self.queues().len(),
    {
        self.channels.len()
    }
}

/// The entities, and the events of this frame and of the next one.
pub struct World<E> {
    entities: Vec<Entity>,
    current_events: EventSender<E>,
    next_events: EventSender<E>,
}

impl<E> World<E> {
    /// Number of entities.
    pub closed spec fn size(&self) -> nat {
        self.entities@.len()
    }

    /// The events delivered this frame, per entity.
    pub closed spec fn current(&self) -> Seq<Seq<E>> {
        self.current_events.queues()
    }

    /// The events sent during this frame, delivered when it finishes.
    pub closed spec fn pending(&self) -> Seq<Seq<E>> {
        self.next_events.queues()
    }

    /// Every entity has its two queues, and entity `i` is numbered `i`.
    pub closed spec fn wf(&self) -> bool {
        &&& self.current_events.queues().len() == self.entities@.len()
        &&& self.next_events.queues().len() == self.entities@.len()
        &&& forall|i: int| 0 <= i < self.entities@.len() ==> #[trigger] self.entities@[i].0 == i
    }

    /// A world without entities.
    pub fn new() -> (r: Self)
        ensures
            r.wf(),
            r.size() == 0,
    {
        World { entities: Vec::new(), current_events: EventSender::new(), next_events: EventSender::new() }
    }

    /// The entity that [`World::create_entity`] would make next.
    pub fn next_entity(&self) -> (r: Entity)
        requires
            self.size() < u32::MAX,
        ensures
            r.0 == self.size(),
    {
        Entity(self.entities.len() as u32)
    }

    /// Makes a new entity, with empty queues, and returns it.
    pub fn create_entity(&mut self) -> (r: Entity)
        requires
            old(self).wf(),
            old(self).size() < u32::MAX,
        ensures
            final(self).wf(),
            r.0 == old(self).size(),
            final(self).size() == old(self).size() + 1,
            final(self).current() == old(self).current().push(Seq::<E>::empty()),
            final(self).pending() == old(self).pending().push(Seq::<E>::empty()),
    {
        let e = self.next_entity();
        let n = e.0;
        self.entities.push(e);
        self.current_events.add_channel();
        self.next_events.add_channel();
        Entity(n)
    }

    /// Sends `event` to `entity`; it is delivered when the frame finishes.
    pub fn send_to_entity(&mut self, entity: Entity, event: E)
        requires
            old(self).wf(),
            (entity.0 as int) < old(self).size(),
        ensures
            final(self).wf(),
            final(self).size() == old(self).size(),
            final(self).current() == old(self).current(),
            final(self).pending() == old(self).pending().update(
                entity.0 as int,
                old(self).pending()[entity.0 as int].push(event),
            ),
    {
        self.next_events.send_to_entity(entity, event);
    }

    /// Finishes a frame: the events sent during it become the current
    /// ones, and nothing is pending any more.
    pub fn finish(&mut self)
        requires
            old(self).wf(),
        ensures
            final(self).wf(),
            final(self).size() == old(self).size(),
            final(self).current() == old(self).pending(),
            final(self).pending().len() == old(self).size(),
            forall|i: int| 0 <= i < final(self).pending().len() ==> #[trigger] final(self).pending()[i]
                == Seq::<E>::empty(),
    {
        std::mem::swap(&mut self.current_events, &mut self.next_events);
        self.next_events.clear();
    }

    /// The events delivered to `entity` this frame.
    pub fn events(&self, entity: &Entity) -> (r: &[E])
        requires
            self.wf(),
            (entity.0 as int) < self.size(),
        ensures
            r@ == self.current()[entity.0 as int],
    {
        self.current_events.events(entity)
    }

    /// Number of entities.
    pub fn entity_count(&self) -> (r: usize)
        ensures
            r == self.size(),
    {
        self.entities.len()
    }
}

/// An event sent to an entity during a frame is delivered to it, after
/// the events sent to it before, once the frame finishes; the other
/// entities' deliveries are untouched by the send.
pub proof fn law_sent_then_delivered<E>(
    before: World<E>,
    sent: World<E>,
    finished: World<E>,
    e: int,
    event: E,
)
    requires
        before.wf(),
        0 <= e < before.size(),
        sent.pending() == before.pending().update(e, before.pending()[e].push(event)),
        finished.current() == sent.pending(),
    ensures
        finished.current()[e] == before.pending()[e].push(event),
        finished.current()[e].last() == event,
        forall|o: int| 0 <= o < before.size() && o != e ==> #[trigger] finished.current()[o]
            == before.pending()[o],
{
}

} // verus!
