//! The Scene system is basically for transitioning between
//! *completely* different states that have entirely different game
//! loops and but which all share a state.  It operates as a stack, with new
//! scenes getting pushed to the stack (while the old ones stay in
//! memory unchanged).  Apparently this is basically a push-down automata.
//!
//! This module holds the automaton: the stack of scenes with the shared
//! world, the switch commands that change it, the choice of which scenes
//! of the stack get drawn, and the running of the current scene's
//! callbacks.  It is generic over the scene type, which implements
//! `Scene`; a stack of different kinds of scenes uses a type that stands
//! for all of them, such as a boxed trait object.

use vstd::prelude::*;

verus! {

/// Where an input event passed to a scene originated.
pub enum SceneEvents {
    /// No event
    NoEvent,
    /// event originated in `mouse_button_down_event()`
    MouseButtonDownEvent,
    /// event originated in `mouse_button_up_event()`
    MouseButtonUpEvent,
    /// event originated in `mouse_motion_event()`
    MouseMotionEvent,
    /// event originated in `raw_mouse_motion_event()`
    RawMouseMotionEvent,
    /// event originated in `mouse_enter_or_leave()`
    MouseEnterOrLeave,
    /// event originated in `mouse_wheel_event()`
    MouseWheelEvent,
    /// event originated in `key_down_event()`
    KeyDownEvent,
    /// event originated in `key_up_event()`
    KeyUpEvent,
    /// event originated in `text_input_event()`
    TextInputEvent,
    /// event originated in `touch_event()`
    TouchEvent,
    /// event originated in `gamepad_button_down_event()`
    GamepadButtonDownEvent,
    /// event originated in `gamepad_button_up_event()`
    GamepadButtonUpEvent,
    /// event originated in `gamepad_axis_event()`
    GamepadAxisEvent,
    /// event originated in `focus_event()`
    FocusEvent,
    /// event originated in `quit_event()`
    QuitEvent,
    /// event originated in `resize_event()`
    ResizeEvent,
}

/// A command to change to a new scene, either by pushing a new one,
/// popping one or replacing the current scene (pop and then push).
pub enum SceneSwitch<T> {
    /// Stay with the current scene.
    Keep,
    Push(T),
    Replace(T),
    Pop,
}

impl<T> SceneSwitch<T> {
    /// Shortcut for `SceneSwitch::Replace(scene)`.
    pub fn replace(scene: T) -> (r: Self)
        ensures
            r == SceneSwitch::Replace(scene),
    {
        SceneSwitch::Replace(scene)
    }

    /// Same as `replace()` but returns SceneSwitch::Push
    pub fn push(scene: T) -> (r: Self)
        ensures
            r == SceneSwitch::Push(scene),
    {
        SceneSwitch::Push(scene)
    }

    /// Shortcut for `SceneSwitch::Pop`.
    pub fn pop() -> (r: Self)
        ensures
            r == SceneSwitch::<T>::Pop,
    {
        SceneSwitch::Pop
    }
}

/// A trait for you to implement on a scene.
/// Defines the callbacks the scene uses:
/// a common context type `C`, and an input event type.
pub trait Scene<S, Ev, C>: Sized {
    /// Whether this scene wants the scene below it on the stack drawn as
    /// well.
    spec fn wants_previous(&self) -> bool;

    fn update(&mut self, gameworld: &mut S, ctx: &mut C) -> SceneSwitch<Self>;

    fn draw(&mut self, gameworld: &mut S, ctx: &mut C) -> Result<(), String>;

    fn input(&mut self, gameworld: &mut S, event: Ev, ctx: &mut C, started: bool);

    /// Only used for human-readable convenience (or not at all, tbh)
    fn name(&self) -> &str;

    /// This returns whether or not to draw the next scene down on the
    /// stack as well; this is useful for layers or GUI stuff that
    /// only partially covers the screen.
    fn draw_previous(&self) -> (r: bool)
        ensures
            r == self.wants_previous(),
    ;
}

/// For each scene of a stack, bottom first, whether it wants the one
/// below it drawn.
pub open spec fn wants_of<S, Ev, C, T: Scene<S, Ev, C>>(stack: Seq<T>) -> Seq<bool> {
    stack.map_values(|t: T| t.wants_previous())
}

/// The stack after a switch command.
pub open spec fn switched<T>(stack: Seq<T>, next: SceneSwitch<T>) -> Seq<T> {
    match next {
        SceneSwitch::Keep => stack,
        SceneSwitch::Push(s) => stack.push(s),
        SceneSwitch::Replace(s) => stack.drop_last().push(s),
        SceneSwitch::Pop => stack.drop_last(),
    }
}

/// A switch can be carried out: popping and replacing need a scene to
/// take off the stack.
pub open spec fn switch_allowed<T>(stack: Seq<T>, next: SceneSwitch<T>) -> bool {
    match next {
        SceneSwitch::Replace(_) | SceneSwitch::Pop => stack.len() > 0,
        _ => true,
    }
}

/// The index of the lowest scene drawn, given for each scene of the stack
/// (bottom first) whether it wants the scene below it drawn as well: the
/// topmost scene that does not want that.  Scenes are drawn from there
/// up to the top.
pub open spec fn is_draw_start(draws_previous: Seq<bool>, start: int) -> bool {
    &&& 0 <= start < draws_previous.len()
    &&& !draws_previous[start]
    &&& forall|j: int| start < j < draws_previous.len() ==> #[trigger] draws_previous[j]
}

/// A stack of scenes, together with the world state that they share.
pub struct SceneStack<S, T> {
    pub world: S,
    scenes: Vec<T>,
}

impl<S, T> SceneStack<S, T> {
    /// The scenes, bottom first.
    pub closed spec fn stack(&self) -> Seq<T> {
        self.scenes@
    }

    /// The shared world.
    pub closed spec fn world_state(&self) -> S {
        self.world
    }

    pub fn new<C>(_ctx: &mut C, global_state: S) -> (r: Self)
        ensures
            r.world_state() == global_state,
            r.stack() == Seq::<T>::empty(),
    {
        Self { world: global_state, scenes: Vec::new() }
    }

    /// The number of scenes on the stack.
    pub fn len(&self) -> (r: usize)
        ensures
            r == self.stack().len(),
    {
        self.scenes.len()
    }

    /// Add a new scene to the top of the stack.
    pub fn push(&mut self, scene: T)
        ensures
            final(self).stack() == old(self).stack().push(scene),
            final(self).world_state() == old(self).world_state(),
    {
        self.scenes.push(scene)
    }

    /// Remove the top scene from the stack and returns it;
    /// there must be one.
    pub fn pop(&mut self) -> (r: T)
        requires
            old(self).stack().len() > 0,
        ensures
            r == old(self).stack().last(),
            final(self).stack() == old(self).stack().drop_last(),
            final(self).world_state() == old(self).world_state(),
    {
        self.scenes.pop().unwrap()
    }

    /// Returns the current scene; there must be one.
    pub fn current(&self) -> (r: &T)
        requires
            self.stack().len() > 0,
        ensures
            *r == self.stack().last(),
    {
        let n = self.scenes.len();
        &self.scenes[n - 1]
    }

    /// A scene of the stack (0 is the bottom one) together with the world,
    /// both to be worked on.
    pub fn scene_and_world(&mut self, i: usize) -> (r: (&mut T, &mut S))
        requires
            i < old(self).stack().len(),
        ensures
            *r.0 == old(self).stack()[i as int],
            *r.1 == old(self).world_state(),
            final(self).stack() == old(self).stack().update(i as int, *final(r.0)),
            final(self).world_state() == *final(r.1),
    {
        (&mut self.scenes[i], &mut self.world)
    }

    /// Executes the given SceneSwitch command; if it is a pop or replace
    /// it returns `Some(old_scene)`, otherwise `None`.  Popping or
    /// replacing needs a scene on the stack.
    pub fn switch(&mut self, next_scene: SceneSwitch<T>) -> (r: Option<T>)
        requires
            switch_allowed(old(self).stack(), next_scene),
        ensures
            final(self).stack() == switched(old(self).stack(), next_scene),
            final(self).world_state() == old(self).world_state(),
            r == match next_scene {
                SceneSwitch::Replace(_) | SceneSwitch::Pop => Some(old(self).stack().last()),
                _ => None::<T>,
            },
    {
        match next_scene {
            SceneSwitch::Keep => None,
            SceneSwitch::Pop => {
                let s = self.pop();
                Some(s)
            },
            SceneSwitch::Push(s) => {
                self.push(s);
                None
            },
            SceneSwitch::Replace(s) => {
                let old_scene = self.pop();
                self.push(s);
                Some(old_scene)
            },
        }
    }

    /// Which scenes to draw: we walk down the scene stack until we find a
    /// scene where we aren't supposed to draw the previous one, and
    /// return its index; the scenes from there up to the top are then
    /// drawn from the bottom up.  `draws_previous` says of each scene,
    /// bottom first, whether it wants the one below it drawn too.  Some
    /// scene must not want that: there must be a scene to start from.
    ///
    /// This allows for layering GUI's and such.
    pub fn draw_start(draws_previous: &[bool]) -> (r: usize)
        requires
            exists|j: int| 0 <= j < draws_previous@.len() && !#[trigger] draws_previous@[j],
        ensures
            is_draw_start(draws_previous@, r as int),
    {
        let mut i: usize = draws_previous.len();
        while i > 0
            invariant
                i <= draws_previous@.len(),
                forall|j: int| i <= j < draws_previous@.len() ==> #[trigger] draws_previous@[j],
                exists|j: int| 0 <= j < draws_previous@.len() && !#[trigger] draws_previous@[j],
            decreases i,
        {
            if !draws_previous[i - 1] {
                return i - 1;
            }
            i = i - 1;
        }
        proof {
            let j = choose|j: int| 0 <= j < draws_previous@.len() && !#[trigger] draws_previous@[j];
            assert(draws_previous@[j]);
        }
        0
    }
}

impl<S, T> SceneStack<S, T> {
    /// The update function must be on the SceneStack because otherwise
    /// if you try to get the current scene and the world to call
    /// update() on the current scene it causes a double-borrow.  :/
    ///
    /// Calls `update` of the current scene, once, with the world and the
    /// context, then carries out the switch that it returned.  The scenes
    /// below it are untouched.
    pub fn update<Ev, C>(&mut self, ctx: &mut C) where T: Scene<S, Ev, C>
        requires
            old(self).stack().len() > 0,
        ensures
            exists|top: &mut T, world: &mut S, c: &mut C, next: SceneSwitch<T>|
                *top == old(self).stack().last() && *world == old(self).world_state() && *c == *old(ctx)
                    && *final(c) == *final(ctx) && #[trigger] call_ensures(T::update, (top, world, c), next)
                    && final(self).world_state() == *final(world) && final(self).stack() == switched(
                    old(self).stack().update(old(self).stack().len() - 1, *final(top)),
                    next,
                ),
    {
        let n = self.scenes.len();
        let next = {
            let (scene, world) = self.scene_and_world(n - 1);
            scene.update(world, ctx)
        };
        self.switch(next);
    }

    /// Draws the scenes from the topmost one that does not want the one
    /// below it drawn, up to the top, bottom first; there must be such a
    /// scene.  Each of them, in turn, has its `draw` called once, with the
    /// world and the context as the draws before it left them; the first
    /// draw that fails ends the drawing, and its error is handed back.
    /// The other scenes are untouched, and no scene is added or removed.
    pub fn draw<Ev, C>(&mut self, ctx: &mut C) -> (r: Result<(), String>) where T: Scene<S, Ev, C>
        requires
            exists|j: int| 0 <= j < old(self).stack().len() && !(#[trigger] old(self).stack()[j]).wants_previous(),
        ensures
            final(self).stack().len() == old(self).stack().len(),
            exists|
                start: int,
                ws: Seq<S>,
                cv: Seq<C>,
                rs: Seq<Result<(), String>>,
                ts: Seq<&mut T>,
                bs: Seq<&mut S>,
                xs: Seq<&mut C>,
            |
                #![trigger is_draw_start(wants_of::<S, Ev, C, T>(old(self).stack()), start), rs.len(), ts.len(), bs.len(), xs.len(), ws.len(), cv.len()]
                {
                    &&& is_draw_start(wants_of::<S, Ev, C, T>(old(self).stack()), start)
                    &&& 0 < rs.len() <= old(self).stack().len() - start
                    &&& ts.len() == rs.len() && bs.len() == rs.len() && xs.len() == rs.len()
                    &&& ws.len() == rs.len() + 1 && cv.len() == rs.len() + 1
                    &&& ws[0] == old(self).world_state() && ws.last() == final(self).world_state()
                    &&& cv[0] == *old(ctx) && cv.last() == *final(ctx)
                    &&& forall|q: int| #![trigger ts[q]] 0 <= q < rs.len() ==> *ts[q] == old(self).stack()[start + q] && *final(ts[q]) == final(self).stack()[start + q]
                    && *bs[q] == ws[q] && *final(bs[q]) == ws[q + 1] && *xs[q] == cv[q]
                    && *final(xs[q]) == cv[q + 1] && call_ensures(T::draw, (ts[q], bs[q], xs[q]), rs[q])
                    &&& forall|q: int| 0 <= q < rs.len() - 1 ==> #[trigger] rs[q] is Ok
                    &&& r == rs.last()
                    &&& (r is Ok ==> start + rs.len() == old(self).stack().len())
                    &&& forall|j: int| 0 <= j < old(self).stack().len() && (j < start || j >= start + rs.len())
                        ==> #[trigger] final(self).stack()[j] == old(self).stack()[j]
                },
    {
        let n = self.scenes.len();
        let mut flags: Vec<bool> = Vec::new();
        let mut i: usize = 0;
        while i < n
            invariant
                n == self.scenes@.len(),
                self.scenes@ == old(self).scenes@,
                i <= n,
                flags@ == wants_of::<S, Ev, C, T>(self.scenes@).take(i as int),
            decreases n - i,
        {
            let f = self.scenes[i].draw_previous();
            flags.push(f);
            i = i + 1;
            assert(flags@ == wants_of::<S, Ev, C, T>(self.scenes@).take(i as int));
        }
        assert(flags@ == wants_of::<S, Ev, C, T>(old(self).stack()));
        proof {
            let j = choose|j: int| 0 <= j < old(self).stack().len() && !(#[trigger] old(self).stack()[j]).wants_previous();
            assert(!flags@[j]);
        }
        let start = Self::draw_start(flags.as_slice());
        let ghost st = start as int;
        let ghost mut ws: Seq<S> = seq![self.world];
        let ghost mut cv: Seq<C> = seq![*ctx];
        let ghost mut rs: Seq<Result<(), String>> = Seq::empty();
        proof {
            let e1: Seq<&mut T> = Seq::empty();
            let e2: Seq<&mut S> = Seq::empty();
            let e3: Seq<&mut C> = Seq::empty();
            assert(e1.len() == rs.len() && e2.len() == rs.len() && e3.len() == rs.len());
        }
        let mut k: usize = start;
        while k < n
            invariant
                n == self.scenes@.len(),
                n == old(self).scenes@.len(),
                st == start,
                start <= k <= n,
                is_draw_start(wants_of::<S, Ev, C, T>(old(self).stack()), st),
                rs.len() == k - start,
                ws.len() == rs.len() + 1 && cv.len() == rs.len() + 1,
                ws[0] == old(self).world_state() && ws.last() == self.world,
                cv[0] == *old(ctx) && cv.last() == *ctx,
                forall|q: int| 0 <= q < rs.len() ==> #[trigger] rs[q] is Ok,
                forall|j: int| 0 <= j < n && (j < start || j >= k) ==> #[trigger] self.scenes@[j] == old(self).scenes@[j],
                exists|ts: Seq<&mut T>, bs: Seq<&mut S>, xs: Seq<&mut C>|
                    #![trigger ts.len(), bs.len(), xs.len()]
                    ts.len() == rs.len() && bs.len() == rs.len() && xs.len() == rs.len()
                    && forall|q: int| #![trigger ts[q]] 0 <= q < rs.len() ==> *ts[q] == old(self).stack()[st + q] && *final(ts[q]) == self.stack()[st + q]
                    && *bs[q] == ws[q] && *final(bs[q]) == ws[q + 1] && *xs[q] == cv[q]
                    && *final(xs[q]) == cv[q + 1] && call_ensures(T::draw, (ts[q], bs[q], xs[q]), rs[q]),
            decreases n - k,
        {
            let ghost (ts0, bs0, xs0) = choose|ts: Seq<&mut T>, bs: Seq<&mut S>, xs: Seq<&mut C>|
                ts.len() == rs.len() && bs.len() == rs.len() && xs.len() == rs.len()
                && forall|q: int| #![trigger ts[q]] 0 <= q < rs.len() ==> *ts[q] == old(self).stack()[st + q] && *final(ts[q]) == self.stack()[st + q]
                    && *bs[q] == ws[q] && *final(bs[q]) == ws[q + 1] && *xs[q] == cv[q]
                    && *final(xs[q]) == cv[q + 1] && call_ensures(T::draw, (ts[q], bs[q], xs[q]), rs[q]);
            let ghost wb = self.world;
            let ghost cb = *ctx;
            let ghost sb = self.scenes@[k as int];
            let res = {
                let (scene, world) = self.scene_and_world(k);
                scene.draw(world, ctx)
            };
            let ghost (a1, b1, c1) = choose|a: &mut T, b: &mut S, c: &mut C|
                *a == sb && *final(a) == self.scenes@[k as int] && *b == wb && *final(b) == self.world
                && *c == cb && *final(c) == *ctx && #[trigger] call_ensures(T::draw, (a, b, c), res);
            proof {
                ws = ws.push(self.world);
                cv = cv.push(*ctx);
                rs = rs.push(res);
                let ts1 = ts0.push(a1);
                let bs1 = bs0.push(b1);
                let xs1 = xs0.push(c1);
                assert(ts1.len() == rs.len() && bs1.len() == rs.len() && xs1.len() == rs.len());
                assert forall|q: int| #![trigger ts1[q]] 0 <= q < rs.len() implies *ts1[q] == old(self).stack()[st + q] && *final(ts1[q]) == self.stack()[st + q]
                    && *bs1[q] == ws[q] && *final(bs1[q]) == ws[q + 1] && *xs1[q] == cv[q]
                    && *final(xs1[q]) == cv[q + 1] && call_ensures(T::draw, (ts1[q], bs1[q], xs1[q]), rs[q]) by {
                    if q < rs.len() - 1 {
                        assert(ts1[q] == ts0[q] && bs1[q] == bs0[q] && xs1[q] == xs0[q]);
                    }
                }
            }
            match res {
                Ok(()) => {},
                Err(e) => {
                    proof {
                        assert(forall|q: int| 0 <= q < rs.len() - 1 ==> #[trigger] rs[q] is Ok);
                        let ts1 = ts0.push(a1);
                        let bs1 = bs0.push(b1);
                        let xs1 = xs0.push(c1);
                        assert({
                            &&& is_draw_start(wants_of::<S, Ev, C, T>(old(self).stack()), st)
                            &&& 0 < rs.len() <= old(self).stack().len() - st
                            &&& ts1.len() == rs.len() && bs1.len() == rs.len() && xs1.len() == rs.len()
                            &&& ws.len() == rs.len() + 1 && cv.len() == rs.len() + 1
                            &&& ws[0] == old(self).world_state() && ws.last() == self.world_state()
                            &&& cv[0] == *old(ctx) && cv.last() == *ctx
                            &&& forall|q: int| #![trigger ts1[q]] 0 <= q < rs.len() ==> *ts1[q] == old(self).stack()[st + q] && *final(ts1[q]) == self.stack()[st + q]
                    && *bs1[q] == ws[q] && *final(bs1[q]) == ws[q + 1] && *xs1[q] == cv[q]
                    && *final(xs1[q]) == cv[q + 1] && call_ensures(T::draw, (ts1[q], bs1[q], xs1[q]), rs[q])
                            &&& forall|q: int| 0 <= q < rs.len() - 1 ==> #[trigger] rs[q] is Ok
                            &&& Err::<(), String>(e) == rs.last()
                            &&& (Err::<(), String>(e) is Ok ==> st + rs.len() == old(self).stack().len())
                            &&& forall|j: int| 0 <= j < old(self).stack().len() && (j < st || j >= st + rs.len())
                                ==> #[trigger] self.stack()[j] == old(self).stack()[j]
                        });
                    }
                    return Err(e);
                },
            }
            k = k + 1;
        }
        proof {
            let (ts0, bs0, xs0) = choose|ts: Seq<&mut T>, bs: Seq<&mut S>, xs: Seq<&mut C>|
                ts.len() == rs.len() && bs.len() == rs.len() && xs.len() == rs.len()
                && forall|q: int| #![trigger ts[q]] 0 <= q < rs.len() ==> *ts[q] == old(self).stack()[st + q] && *final(ts[q]) == self.stack()[st + q]
                    && *bs[q] == ws[q] && *final(bs[q]) == ws[q + 1] && *xs[q] == cv[q]
                    && *final(xs[q]) == cv[q + 1] && call_ensures(T::draw, (ts[q], bs[q], xs[q]), rs[q]);
            assert(wants_of::<S, Ev, C, T>(old(self).stack()).len() == n);
            assert(0 < rs.len());
            assert(rs[rs.len() - 1] is Ok);
            assert(rs.last() == Ok::<(), String>(rs.last()->Ok_0));
            assert(Ok::<(), String>(()) == rs.last());
            assert({
                &&& is_draw_start(wants_of::<S, Ev, C, T>(old(self).stack()), st)
                &&& 0 < rs.len() <= old(self).stack().len() - st
                &&& ts0.len() == rs.len() && bs0.len() == rs.len() && xs0.len() == rs.len()
                &&& ws.len() == rs.len() + 1 && cv.len() == rs.len() + 1
                &&& ws[0] == old(self).world_state() && ws.last() == self.world_state()
                &&& cv[0] == *old(ctx) && cv.last() == *ctx
                &&& forall|q: int| #![trigger ts0[q]] 0 <= q < rs.len() ==> *ts0[q] == old(self).stack()[st + q] && *final(ts0[q]) == self.stack()[st + q]
                    && *bs0[q] == ws[q] && *final(bs0[q]) == ws[q + 1] && *xs0[q] == cv[q]
                    && *final(xs0[q]) == cv[q + 1] && call_ensures(T::draw, (ts0[q], bs0[q], xs0[q]), rs[q])
                &&& forall|q: int| 0 <= q < rs.len() - 1 ==> #[trigger] rs[q] is Ok
                &&& Ok::<(), String>(()) == rs.last()
                &&& (Ok::<(), String>(()) is Ok ==> st + rs.len() == old(self).stack().len())
                &&& forall|j: int| 0 <= j < old(self).stack().len() && (j < st || j >= st + rs.len())
                    ==> #[trigger] self.stack()[j] == old(self).stack()[j]
            });
        }
        Ok(())
    }

    /// Feeds the given input event to the current scene: calls its
    /// `input`, once, with the world, the event, the context and `started`.
    /// The scenes below it are untouched.
    pub fn input<Ev, C>(&mut self, event: Ev, ctx: &mut C, started: bool) where T: Scene<S, Ev, C>
        requires
            old(self).stack().len() > 0,
        ensures
            exists|top: &mut T, world: &mut S, c: &mut C|
                *top == old(self).stack().last() && *world == old(self).world_state() && *c == *old(ctx)
                    && *final(c) == *final(ctx) && #[trigger] call_ensures(
                    T::input,
                    (top, world, event, c, started),
                    (),
                ) && final(self).world_state() == *final(world) && final(self).stack()
                    == old(self).stack().update(old(self).stack().len() - 1, *final(top)),
    {
        let n = self.scenes.len();
        let (scene, world) = self.scene_and_world(n - 1);
        scene.input(world, event, ctx, started);
    }
}

/// Pushing a scene and then popping gives that scene back and leaves the
/// stack as it was; replacing is popping and then pushing.
pub proof fn law_push_pop<T>(stack: Seq<T>, scene: T, other: T)
    ensures
        switched(switched(stack, SceneSwitch::Push(scene)), SceneSwitch::<T>::Pop) == stack,
        switched(stack, SceneSwitch::Push(scene)).last() == scene,
        stack.len() > 0 ==> switched(stack, SceneSwitch::Replace(other)) == switched(
            switched(stack, SceneSwitch::<T>::Pop),
            SceneSwitch::Push(other),
        ),
        switched(stack, SceneSwitch::<T>::Keep) == stack,
{
    assert(stack.push(scene).drop_last() =~= stack);
}

/// At most one scene is drawn from where to start drawing, and the top
/// scene is always drawn when there is one to start from.
pub proof fn law_draw_start_unique(draws_previous: Seq<bool>, a: int, b: int)
    requires
        is_draw_start(draws_previous, a),
        is_draw_start(draws_previous, b),
    ensures
        a == b,
        a <= draws_previous.len() - 1,
{
}

} // verus!
