use ggez_goodies::scene::{Scene, SceneEvents, SceneStack, SceneSwitch};

#[test]
fn push_pop_and_current() {
    let mut ctx = ();
    let mut stack: SceneStack<u32, &str> = SceneStack::new(&mut ctx, 7);
    assert_eq!(stack.len(), 0);
    stack.push("menu");
    stack.push("game");
    assert_eq!(*stack.current(), "game");
    assert_eq!(stack.pop(), "game");
    assert_eq!(*stack.current(), "menu");
    assert_eq!(stack.world, 7);
}

#[test]
fn switches() {
    let mut ctx = ();
    let mut stack: SceneStack<(), &str> = SceneStack::new(&mut ctx, ());
    assert_eq!(stack.switch(SceneSwitch::push("a")), None);
    assert_eq!(stack.switch(SceneSwitch::Keep), None);
    assert_eq!(stack.len(), 1);
    assert_eq!(stack.switch(SceneSwitch::replace("b")), Some("a"));
    assert_eq!(*stack.current(), "b");
    assert_eq!(stack.len(), 1);
    assert_eq!(stack.switch(SceneSwitch::pop()), Some("b"));
    assert_eq!(stack.len(), 0);
}

#[test]
fn scene_and_world_are_both_mutable() {
    let mut ctx = ();
    let mut stack: SceneStack<u32, u32> = SceneStack::new(&mut ctx, 0);
    stack.push(10);
    stack.push(20);
    {
        let (scene, world) = stack.scene_and_world(0);
        *scene += 1;
        *world += 5;
    }
    assert_eq!(stack.pop(), 20);
    assert_eq!(*stack.current(), 11);
    assert_eq!(stack.world, 5);
}

#[test]
fn draw_start_finds_the_topmost_opaque_scene() {
    type S = SceneStack<(), ()>;
    assert_eq!(S::draw_start(&[false, true, true]), 0);
    assert_eq!(S::draw_start(&[false, false, true]), 1);
    assert_eq!(S::draw_start(&[true, false]), 1);
    assert_eq!(S::draw_start(&[false]), 0);
}

#[test]
fn scene_events_are_told_apart() {
    let e = SceneEvents::KeyDownEvent;
    assert!(matches!(e, SceneEvents::KeyDownEvent));
    assert!(!matches!(SceneEvents::NoEvent, SceneEvents::KeyUpEvent));
}

/// A scene that counts its updates and draws, and asks for a switch.
struct Counter {
    hides: bool,
    next: Option<u32>,
    drawn: u32,
}

impl Scene<Vec<&'static str>, SceneEvents, ()> for Counter {
    fn wants_previous(&self) -> bool {
        !self.hides
    }
    fn update(&mut self, world: &mut Vec<&'static str>, _ctx: &mut ()) -> SceneSwitch<Self> {
        world.push("update");
        match self.next.take() {
            Some(0) => SceneSwitch::Pop,
            Some(_) => SceneSwitch::Push(Counter { hides: false, next: None, drawn: 0 }),
            None => SceneSwitch::Keep,
        }
    }
    fn draw(&mut self, world: &mut Vec<&'static str>, _ctx: &mut ()) -> Result<(), String> {
        self.drawn += 1;
        world.push(if self.hides { "draw-opaque" } else { "draw-overlay" });
        Ok(())
    }
    fn input(&mut self, world: &mut Vec<&'static str>, _event: SceneEvents, _ctx: &mut (), started: bool) {
        world.push(if started { "input-start" } else { "input-stop" });
    }
    fn name(&self) -> &str {
        "counter"
    }
    fn draw_previous(&self) -> bool {
        !self.hides
    }
}

#[test]
fn scene_loop_updates_draws_and_switches() {
    let mut ctx = ();
    let mut stack: SceneStack<Vec<&'static str>, Counter> = SceneStack::new(&mut ctx, Vec::new());
    stack.push(Counter { hides: true, next: None, drawn: 0 });
    stack.push(Counter { hides: true, next: Some(1), drawn: 0 });
    // The top scene asks to push an overlay.
    stack.update::<SceneEvents, ()>(&mut ctx);
    assert_eq!(stack.len(), 3);
    // Drawing starts at the middle scene: the bottom one is hidden.
    stack.draw::<SceneEvents, ()>(&mut ctx).unwrap();
    assert_eq!(stack.world, vec!["update", "draw-opaque", "draw-overlay"]);
    stack.input::<SceneEvents, ()>(SceneEvents::KeyDownEvent, &mut ctx, true);
    assert_eq!(stack.world.last(), Some(&"input-start"));
    let top = stack.pop();
    assert_eq!(top.drawn, 1);
    let middle = stack.pop();
    assert_eq!(middle.drawn, 1);
    assert_eq!(stack.current().drawn, 0);
}
