use ggez_goodies::ecs::{Component, Entity, EventSender, VecResource, World};

#[test]
fn event_sender_queues_and_clears() {
    let mut s: EventSender<u32> = EventSender::new();
    s.add_channel();
    s.add_channel();
    s.send_to_entity(Entity(1), 5);
    s.send_to_entity(Entity(1), 6);
    assert_eq!(s.events(&Entity(0)), &[] as &[u32]);
    assert_eq!(s.events(&Entity(1)), &[5, 6]);
    s.clear();
    assert_eq!(s.len(), 2);
    assert_eq!(s.events(&Entity(1)), &[] as &[u32]);
}

#[test]
fn world_delivers_on_finish() {
    let mut w: World<usize> = World::new();
    for _ in 0..10 {
        w.create_entity();
    }
    assert_eq!(w.entity_count(), 10);
    assert_eq!(w.next_entity().0, 10);
    w.send_to_entity(Entity(3), 0);
    // Not delivered before the frame finishes.
    assert_eq!(w.events(&Entity(3)), &[] as &[usize]);
    w.finish();
    assert_eq!(w.events(&Entity(3)), &[0]);
    // Each entity passes the event on to the next one, one step per frame.
    for step in 0..5 {
        let mut to_send = Vec::new();
        for i in 0..w.entity_count() {
            for e in w.events(&Entity(i as u32)) {
                to_send.push(((i + 1) % 10, *e + 1));
            }
        }
        for (target, e) in to_send {
            w.send_to_entity(Entity(target as u32), e);
        }
        w.finish();
        assert_eq!(w.events(&Entity((4 + step) as u32)), &[step + 1]);
    }
}

#[test]
fn resources_start_empty() {
    let r: VecResource<Component> = VecResource::new();
    assert!(r.data.is_empty());
    assert_eq!(Component::default().data, 0);
}
