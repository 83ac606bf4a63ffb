//! An abstract input state object that gets fed user
//! events and updates itself based on a set of key
//! bindings.
//!
//! The goals are:
//!
//! * Have a layer of abstract key bindings rather than
//! looking at concrete event types
//! * Use this to be able to abstract away differences
//! between keyboards, joysticks and game controllers
//! (rather based on Unity3D),
//! * Present an event- or state-based API so you can do whichever you want.
//!
//! In this module:
//! * "physical" means Hardware button
//! * "logical" means User-defined button
//! * "raw" means unaffected by tweening on input axes
//!
//! Physical keys and gamepad buttons are identified by their numeric
//! codes.  An axis is held here as the direction it is pushed towards
//! (-1, 0 or +1); the smoothed position of an axis is a floating-point
//! quantity that is tracked by the layer around this library.

use std::collections::HashMap;
use std::hash::Hash;
use vstd::prelude::*;

use crate::keys::{clone_key, keys_of, lawful_key, lemma_not_in_prefix, lemma_prefix_grows};

verus! {

broadcast use vstd::std_specs::hash::group_hash_axioms;

/// Numeric code of a physical keyboard key.
pub type KeyCode = u32;

/// Numeric code of a physical gamepad button.
pub type GamepadButton = u32;

/// The ID of the default player
pub const DEFAULT_PLAYER: usize = 0;

/// Abstract input values; the "to" part of an input mapping.
///
/// This is generic over `Axes` and `Buttons` types; these are
/// types that YOU define.  For instance, for your particular
/// game you may have a "camera" axis, a "movement" axis, and
/// "select", "menu" and "exit" buttons.
#[derive(Debug, Copy, Clone, PartialEq, Hash, Eq)]
pub enum InputEffect<Axes, Buttons> where Axes: Eq + Hash + Clone, Buttons: Eq + Hash + Clone {
    Axis(Axes, bool),
    Button(Buttons),
}

/// Both logical types of a binding behave lawfully as keys.
pub open spec fn lawful_logical<Axes: Clone, Buttons: Clone>() -> bool {
    lawful_key::<Axes>() && lawful_key::<Buttons>()
}

impl<Axes, Buttons> InputEffect<Axes, Buttons> where
    Axes: Eq + Hash + Clone,
    Buttons: Eq + Hash + Clone,
 {
    /// A copy of this effect.
    fn duplicate(&self) -> (r: Self)
        ensures
            lawful_logical::<Axes, Buttons>() ==> r == *self,
    {
        match self {
            InputEffect::Axis(axis, positive) => InputEffect::Axis(clone_key(axis), *positive),
            InputEffect::Button(button) => InputEffect::Button(clone_key(button)),
        }
    }
}

/// All the state necessary for a button press.
#[derive(Debug, Copy, Clone, Default, Eq, PartialEq)]
pub struct ButtonState {
    pressed: bool,
    pressed_last_frame: bool,
}

impl View for ButtonState {
    /// Whether the button is pressed, and whether it was at the last frame.
    type V = (bool, bool);

    closed spec fn view(&self) -> (bool, bool) {
        (self.pressed, self.pressed_last_frame)
    }
}

impl ButtonState {
    fn released_state() -> (r: ButtonState)
        ensures
            r@ == (false, false),
    {
        ButtonState { pressed: false, pressed_last_frame: false }
    }

    /// Is the button pressed or not
    pub fn pressed(&self) -> (r: bool)
        ensures
            r == self@.0,
    {
        self.pressed
    }

    /// Trigger detector for the button
    pub fn pressed_last_frame(&self) -> (r: bool)
        ensures
            r == self@.1,
    {
        self.pressed_last_frame
    }
}

// ---------------------------------------------------------------------
// Mathematical models
// ---------------------------------------------------------------------

/// What a binding holds: the effect each physical key and each
/// physical gamepad button stands for.
#[verifier::reject_recursive_types(Axes)]
#[verifier::reject_recursive_types(Buttons)]
pub struct BindingModel<Axes, Buttons> where Axes: Eq + Hash + Clone, Buttons: Eq + Hash + Clone {
    pub keys: Map<KeyCode, InputEffect<Axes, Buttons>>,
    pub pads: Map<GamepadButton, InputEffect<Axes, Buttons>>,
}

/// The input state of one player: the direction each axis is pushed
/// towards, and the (pressed, pressed last frame) state of each button.
/// An axis or button that was never touched is absent.
#[verifier::reject_recursive_types(Axes)]
#[verifier::reject_recursive_types(Buttons)]
pub struct PlayerModel<Axes, Buttons> {
    pub axes: Map<Axes, i8>,
    pub buttons: Map<Buttons, (bool, bool)>,
}

/// The input state of every player, with the bindings of every player.
#[verifier::reject_recursive_types(Axes)]
#[verifier::reject_recursive_types(Buttons)]
pub struct InputModel<Axes, Buttons> where Axes: Eq + Hash + Clone, Buttons: Eq + Hash + Clone {
    pub bindings: Map<usize, BindingModel<Axes, Buttons>>,
    pub players: Map<usize, PlayerModel<Axes, Buttons>>,
}

/// A builder: the next player ID to try, and the bindings so far.
#[verifier::reject_recursive_types(Axes)]
#[verifier::reject_recursive_types(Buttons)]
pub struct BuilderModel<Axes, Buttons> where Axes: Eq + Hash + Clone, Buttons: Eq + Hash + Clone {
    pub curr: usize,
    pub bindings: Map<usize, BindingModel<Axes, Buttons>>,
}

/// A player that has touched nothing.
pub open spec fn fresh_player<Axes, Buttons>() -> PlayerModel<Axes, Buttons> {
    PlayerModel { axes: Map::empty(), buttons: Map::empty() }
}

/// Axis directions are -1, 0 or +1.
pub open spec fn player_wf<Axes, Buttons>(m: PlayerModel<Axes, Buttons>) -> bool {
    forall|a: Axes| #[trigger] m.axes.contains_key(a) ==> -1 <= m.axes[a] <= 1
}

/// The raw value of an axis: the direction it is pushed towards.
pub open spec fn axis_raw<Axes, Buttons>(m: PlayerModel<Axes, Buttons>, axis: Axes) -> i8 {
    if m.axes.contains_key(axis) {
        m.axes[axis]
    } else {
        0
    }
}

/// The (pressed, pressed last frame) state of a button.
pub open spec fn button_of<Axes, Buttons>(m: PlayerModel<Axes, Buttons>, button: Buttons) -> (
    bool,
    bool,
) {
    if m.buttons.contains_key(button) {
        m.buttons[button]
    } else {
        (false, false)
    }
}

/// Level trigger: the button is held down.
pub open spec fn is_down<Axes, Buttons>(m: PlayerModel<Axes, Buttons>, b: Buttons) -> bool {
    button_of(m, b).0
}

/// Edge trigger: the button went down since the last frame.
pub open spec fn is_pressed<Axes, Buttons>(m: PlayerModel<Axes, Buttons>, b: Buttons) -> bool {
    button_of(m, b).0 && !button_of(m, b).1
}

/// Edge trigger: the button went up since the last frame.
pub open spec fn is_released<Axes, Buttons>(m: PlayerModel<Axes, Buttons>, b: Buttons) -> bool {
    !button_of(m, b).0 && button_of(m, b).1
}

/// The direction an axis ends up at when a binding to it of the given
/// sign starts (`started`) or stops.  Stopping only neutralises the axis
/// when it is pushed in the direction of the stopping binding.
pub open spec fn next_direction(cur: i8, positive: bool, started: bool) -> i8 {
    if started {
        if positive {
            1i8
        } else {
            -1i8
        }
    } else if (positive && cur > 0) || (!positive && cur < 0) {
        0i8
    } else {
        cur
    }
}

/// Applies an input effect that started or stopped.
pub open spec fn apply_effect<Axes, Buttons>(
    m: PlayerModel<Axes, Buttons>,
    effect: InputEffect<Axes, Buttons>,
    started: bool,
) -> PlayerModel<Axes, Buttons> where Axes: Eq + Hash + Clone, Buttons: Eq + Hash + Clone {
    match effect {
        InputEffect::Axis(axis, positive) => PlayerModel {
            axes: m.axes.insert(axis, next_direction(axis_raw(m, axis), positive, started)),
            buttons: m.buttons,
        },
        InputEffect::Button(button) => PlayerModel {
            axes: m.axes,
            buttons: m.buttons.insert(button, (started, button_of(m, button).1)),
        },
    }
}

/// Advances one frame: every button remembers its current state as the
/// state of the last frame.
pub open spec fn advance_frame<Axes, Buttons>(m: PlayerModel<Axes, Buttons>) -> PlayerModel<
    Axes,
    Buttons,
> {
    PlayerModel { axes: m.axes, buttons: m.buttons.map_values(|s: (bool, bool)| (s.0, s.0)) }
}

/// Resets a player: every known axis is neutral and every known button
/// is up, now and at the last frame.
pub open spec fn reset_player<Axes, Buttons>(m: PlayerModel<Axes, Buttons>) -> PlayerModel<
    Axes,
    Buttons,
> {
    PlayerModel {
        axes: m.axes.map_values(|d: i8| 0i8),
        buttons: m.buttons.map_values(|s: (bool, bool)| (false, false)),
    }
}

/// The state of a player; one with no state yet has touched nothing.
pub open spec fn player_of<Axes, Buttons>(m: InputModel<Axes, Buttons>, p: usize) -> PlayerModel<
    Axes,
    Buttons,
> where Axes: Eq + Hash + Clone, Buttons: Eq + Hash + Clone {
    if m.players.contains_key(p) {
        m.players[p]
    } else {
        fresh_player()
    }
}

pub open spec fn input_wf<Axes, Buttons>(m: InputModel<Axes, Buttons>) -> bool where
    Axes: Eq + Hash + Clone,
    Buttons: Eq + Hash + Clone,
 {
    forall|p: usize| #[trigger] m.players.contains_key(p) ==> player_wf(m.players[p])
}

/// Whether the key is bound for player `p`, among the players in `done`.
pub open spec fn key_affects<Axes, Buttons>(
    m: InputModel<Axes, Buttons>,
    key: KeyCode,
    done: Set<usize>,
    p: usize,
) -> bool where Axes: Eq + Hash + Clone, Buttons: Eq + Hash + Clone {
    done.contains(p) && m.bindings.contains_key(p) && m.bindings[p].keys.contains_key(key)
}

/// A key event delivered to the players in `done`: each one that binds
/// the key applies the effect bound to it.
pub open spec fn key_event_on<Axes, Buttons>(
    m: InputModel<Axes, Buttons>,
    key: KeyCode,
    started: bool,
    done: Set<usize>,
) -> InputModel<Axes, Buttons> where Axes: Eq + Hash + Clone, Buttons: Eq + Hash + Clone {
    InputModel {
        bindings: m.bindings,
        players: Map::new(
            |p: usize| m.players.contains_key(p) || key_affects(m, key, done, p),
            |p: usize|
                if key_affects(m, key, done, p) {
                    apply_effect(player_of(m, p), m.bindings[p].keys[key], started)
                } else {
                    m.players[p]
                },
        ),
    }
}

/// A key event, delivered to every player.
pub open spec fn key_event<Axes, Buttons>(
    m: InputModel<Axes, Buttons>,
    key: KeyCode,
    started: bool,
) -> InputModel<Axes, Buttons> where Axes: Eq + Hash + Clone, Buttons: Eq + Hash + Clone {
    key_event_on(m, key, started, m.bindings.dom())
}

/// A gamepad event of player `p`: if `p` binds the button, the bound
/// effect is applied to `p`.
pub open spec fn pad_event<Axes, Buttons>(
    m: InputModel<Axes, Buttons>,
    button: GamepadButton,
    p: usize,
    started: bool,
) -> InputModel<Axes, Buttons> where Axes: Eq + Hash + Clone, Buttons: Eq + Hash + Clone {
    if m.bindings.contains_key(p) && m.bindings[p].pads.contains_key(button) {
        InputModel {
            bindings: m.bindings,
            players: m.players.insert(
                p,
                apply_effect(player_of(m, p), m.bindings[p].pads[button], started),
            ),
        }
    } else {
        m
    }
}

/// The first player ID at or after `from` that has no binding yet.
pub open spec fn is_first_free_id<V>(bindings: Map<usize, V>, from: usize, id: usize) -> bool {
    &&& from <= id
    &&& !bindings.contains_key(id)
    &&& forall|j: usize| from <= j < id ==> #[trigger] bindings.contains_key(j)
}

/// Some player ID at or after `from`, and below `usize::MAX`, has no
/// binding yet, so that the search for one ends without overflow.
pub open spec fn free_id_reachable<V>(bindings: Map<usize, V>, from: usize) -> bool {
    exists|f: usize| from <= f < usize::MAX && !#[trigger] bindings.contains_key(f)
}

// ---------------------------------------------------------------------
// Bindings
// ---------------------------------------------------------------------

/// A struct that contains a mapping from physical input events
/// (key codes and gamepad buttons) to whatever your logical Axis/Button
/// types are.
#[derive(Default, Debug, Eq, PartialEq, Clone)]
pub struct InputBinding<Axes, Buttons> where Axes: Hash + Eq + Clone, Buttons: Hash + Eq + Clone {
    key_bindings: HashMap<KeyCode, InputEffect<Axes, Buttons>>,
    gamepad_bindings: HashMap<GamepadButton, InputEffect<Axes, Buttons>>,
}

impl<Axes, Buttons> View for InputBinding<Axes, Buttons> where
    Axes: Hash + Eq + Clone,
    Buttons: Hash + Eq + Clone,
 {
    type V = BindingModel<Axes, Buttons>;

    closed spec fn view(&self) -> BindingModel<Axes, Buttons> {
        BindingModel { keys: self.key_bindings@, pads: self.gamepad_bindings@ }
    }
}

impl<Axes, Buttons> InputBinding<Axes, Buttons> where
    Axes: Hash + Eq + Clone,
    Buttons: Hash + Eq + Clone,
 {
    /// The default constructor for an InputBinding. Same as calling InputBinding::default().
    pub fn new() -> (r: Self)
        ensures
            r@.keys == Map::<KeyCode, InputEffect<Axes, Buttons>>::empty(),
            r@.pads == Map::<GamepadButton, InputEffect<Axes, Buttons>>::empty(),
    {
        InputBinding { key_bindings: HashMap::new(), gamepad_bindings: HashMap::new() }
    }

    /// Adds a key binding connecting the given keycode to the given
    /// logical axis.
    pub fn bind_key_to_axis(self, keycode: KeyCode, axis: Axes, positive: bool) -> (r: Self)
        ensures
            r@.keys == self@.keys.insert(keycode, InputEffect::Axis(axis, positive)),
            r@.pads == self@.pads,
    {
        let mut s = self;
        s.key_bindings.insert(keycode, InputEffect::Axis(axis, positive));
        s
    }

    /// Adds a key binding connecting the given keycode to the given
    /// logical button.
    pub fn bind_key_to_button(self, keycode: KeyCode, button: Buttons) -> (r: Self)
        ensures
            r@.keys == self@.keys.insert(keycode, InputEffect::Button(button)),
            r@.pads == self@.pads,
    {
        let mut s = self;
        s.key_bindings.insert(keycode, InputEffect::Button(button));
        s
    }

    /// Adds a gamepad binding connecting the given Gamepad Button to the given
    /// logical axis.
    pub fn bind_gamepad_button_to_axis(self, button: GamepadButton, axis: Axes, positive: bool) -> (r:
        Self)
        ensures
            r@.keys == self@.keys,
            r@.pads == self@.pads.insert(button, InputEffect::Axis(axis, positive)),
    {
        let mut s = self;
        s.gamepad_bindings.insert(button, InputEffect::Axis(axis, positive));
        s
    }

    /// Adds a gamepad binding connecting the given Gamepad Button to the given
    /// logical button.
    pub fn bind_gamepad_button_to_button(self, ggez_button: GamepadButton, button: Buttons) -> (r:
        Self)
        ensures
            r@.keys == self@.keys,
            r@.pads == self@.pads.insert(ggez_button, InputEffect::Button(button)),
    {
        let mut s = self;
        s.gamepad_bindings.insert(ggez_button, InputEffect::Button(button));
        s
    }

    /// Takes an physical input type and turns it into a logical input type (keycode -> axis/button).
    pub fn resolve(&self, keycode: KeyCode) -> (r: Option<InputEffect<Axes, Buttons>>)
        requires
            lawful_logical::<Axes, Buttons>(),
        ensures
            r == self@.keys.get(keycode),
    {
        match self.key_bindings.get(&keycode) {
            Some(effect) => Some(effect.duplicate()),
            None => None,
        }
    }

    /// Takes a physical Gamepad input type and turns it into a logical input type (gamepad::button -> axis/button).
    pub fn resolve_gamepad(&self, button: GamepadButton) -> (r: Option<InputEffect<Axes, Buttons>>)
        requires
            lawful_logical::<Axes, Buttons>(),
        ensures
            r == self@.pads.get(button),
    {
        match self.gamepad_bindings.get(&button) {
            Some(effect) => Some(effect.duplicate()),
            None => None,
        }
    }
}

// ---------------------------------------------------------------------
// One player's state
// ---------------------------------------------------------------------

/// The object that tracks the current state of the input controls of
/// one player: the direction of each axis and the state of each button.
#[derive(Clone, Debug, PartialEq)]
pub struct PlayerInputState<Axes, Buttons> where Axes: Hash + Eq + Clone, Buttons: Hash + Eq + Clone {
    /// Direction state for axes
    axes: HashMap<Axes, i8>,
    /// Input states for buttons
    buttons: HashMap<Buttons, ButtonState>,
}

impl<Axes, Buttons> View for PlayerInputState<Axes, Buttons> where
    Axes: Hash + Eq + Clone,
    Buttons: Hash + Eq + Clone,
 {
    type V = PlayerModel<Axes, Buttons>;

    closed spec fn view(&self) -> PlayerModel<Axes, Buttons> {
        PlayerModel {
            axes: self.axes@,
            buttons: self.buttons@.map_values(|s: ButtonState| s@),
        }
    }
}

impl<Axes, Buttons> Default for PlayerInputState<Axes, Buttons> where
    Axes: Eq + Hash + Clone,
    Buttons: Eq + Hash + Clone,
 {
    fn default() -> (r: Self)
        ensures
            r@ == fresh_player::<Axes, Buttons>(),
    {
        PlayerInputState::new()
    }
}

impl<Axes, Buttons> PlayerInputState<Axes, Buttons> where
    Axes: Eq + Hash + Clone,
    Buttons: Eq + Hash + Clone,
 {
    pub fn new() -> (r: Self)
        ensures
            r@ == fresh_player::<Axes, Buttons>(),
    {
        let r = Self { axes: HashMap::new(), buttons: HashMap::new() };
        assert(r@.buttons =~= Map::empty());
        r
    }

    /// Advances one frame: every button remembers whether it was pressed
    /// at this frame.  (The smoothing of axis positions happens around
    /// this library.)
    pub fn update(&mut self)
        requires
            lawful_logical::<Axes, Buttons>(),
        ensures
            final(self)@ == advance_frame(old(self)@),
    {
        let mut next: HashMap<Buttons, ButtonState> = HashMap::new();
        for (k, v) in it: self.buttons.iter()
            invariant
                lawful_logical::<Axes, Buttons>(),
                forall|b: Buttons| #[trigger] next@.contains_key(b) ==> self.buttons@.contains_key(b)
                    && next@[b]@ == (self.buttons@[b]@.0, self.buttons@[b]@.0),
                forall|b: Buttons| #[trigger] self.buttons@.contains_key(b) && !next@.contains_key(b) ==>
                    exists|i: int| it.index() <= i < it.seq().len() && *it.seq()[i].0 == b,
        {
            let st = ButtonState { pressed: v.pressed, pressed_last_frame: v.pressed };
            next.insert(clone_key(k), st);
        }
        self.buttons = next;
        assert(self@.buttons =~= advance_frame(old(self)@).buttons);
    }

    /// Used for testing purposes
    pub fn update_button_down(&mut self, button: Buttons)
        requires
            lawful_logical::<Axes, Buttons>(),
        ensures
            final(self)@ == apply_effect(old(self)@, InputEffect::Button(button), true),
    {
        self.update_effect(InputEffect::Button(button), true);
    }

    /// Used for testing purposes
    pub fn update_button_up(&mut self, button: Buttons)
        requires
            lawful_logical::<Axes, Buttons>(),
        ensures
            final(self)@ == apply_effect(old(self)@, InputEffect::Button(button), false),
    {
        self.update_effect(InputEffect::Button(button), false);
    }

    /// Used for testing purposes
    pub fn update_axis_start(&mut self, axis: Axes, positive: bool)
        requires
            lawful_logical::<Axes, Buttons>(),
        ensures
            final(self)@ == apply_effect(old(self)@, InputEffect::Axis(axis, positive), true),
    {
        self.update_effect(InputEffect::Axis(axis, positive), true);
    }

    /// Used for testing purposes
    pub fn update_axis_stop(&mut self, axis: Axes, positive: bool)
        requires
            lawful_logical::<Axes, Buttons>(),
        ensures
            final(self)@ == apply_effect(old(self)@, InputEffect::Axis(axis, positive), false),
    {
        self.update_effect(InputEffect::Axis(axis, positive), false);
    }

    /// Takes an InputEffect and actually applies it.
    pub fn update_effect(&mut self, effect: InputEffect<Axes, Buttons>, started: bool)
        requires
            lawful_logical::<Axes, Buttons>(),
        ensures
            final(self)@ == apply_effect(old(self)@, effect, started),
    {
        match effect {
            InputEffect::Axis(axis, positive) => {
                let cur: i8 = match self.axes.get(&axis) {
                    Some(d) => *d,
                    None => 0,
                };
                let next: i8 = if started {
                    if positive {
                        1
                    } else {
                        -1
                    }
                } else if (positive && cur > 0) || (!positive && cur < 0) {
                    0
                } else {
                    cur
                };
                self.axes.insert(axis, next);
            },
            InputEffect::Button(button) => {
                let last = match self.buttons.get(&button) {
                    Some(s) => s.pressed_last_frame,
                    None => false,
                };
                let ghost b = button;
                self.buttons.insert(button, ButtonState { pressed: started, pressed_last_frame: last });
                assert(self@.buttons =~= old(self)@.buttons.insert(b, (started, last)));
            },
        }
    }

    /// The axes this player has touched, each once.
    pub fn axes(&self) -> (r: Vec<Axes>)
        requires
            lawful_logical::<Axes, Buttons>(),
        ensures
            r@.no_duplicates(),
            forall|a: Axes| self@.axes.contains_key(a) <==> #[trigger] r@.contains(a),
    {
        keys_of(&self.axes)
    }

    /// Gets the raw value of a logical Axis: the direction it is pushed
    /// towards.
    pub fn get_axis_raw(&self, axis: Axes) -> (r: i8)
        requires
            lawful_logical::<Axes, Buttons>(),
        ensures
            r == axis_raw(self@, axis),
    {
        match self.axes.get(&axis) {
            Some(d) => *d,
            None => 0,
        }
    }

    /// Gets the state of a logical Button
    fn get_button(&self, button: Buttons) -> (r: ButtonState)
        requires
            lawful_logical::<Axes, Buttons>(),
        ensures
            r@ == button_of(self@, button),
    {
        match self.buttons.get(&button) {
            Some(s) => *s,
            None => ButtonState::released_state(),
        }
    }

    pub fn get_button_down(&self, axis: Buttons) -> (r: bool)
        requires
            lawful_logical::<Axes, Buttons>(),
        ensures
            r == is_down(self@, axis),
    {
        self.get_button(axis).pressed
    }

    /// Used for testing purposes
    pub fn get_button_up(&self, axis: Buttons) -> (r: bool)
        requires
            lawful_logical::<Axes, Buttons>(),
        ensures
            r == !is_down(self@, axis),
    {
        !self.get_button(axis).pressed
    }

    /// Returns whether or not the button was pressed this frame,
    /// only returning true if the press happened this frame.
    ///
    /// Basically, `get_button_down()` and `get_button_up()` are level
    /// triggers, this and `get_button_released()` are edge triggered.
    pub fn get_button_pressed(&self, axis: Buttons) -> (r: bool)
        requires
            lawful_logical::<Axes, Buttons>(),
        ensures
            r == is_pressed(self@, axis),
    {
        let b = self.get_button(axis);
        b.pressed && !b.pressed_last_frame
    }

    pub fn get_button_released(&self, axis: Buttons) -> (r: bool)
        requires
            lawful_logical::<Axes, Buttons>(),
        ensures
            r == is_released(self@, axis),
    {
        let b = self.get_button(axis);
        !b.pressed && b.pressed_last_frame
    }

    pub fn reset_input_state(&mut self)
        requires
            lawful_logical::<Axes, Buttons>(),
        ensures
            final(self)@ == reset_player(old(self)@),
    {
        let mut axes: HashMap<Axes, i8> = HashMap::new();
        for (k, _v) in it: self.axes.iter()
            invariant
                lawful_logical::<Axes, Buttons>(),
                forall|a: Axes| #[trigger] axes@.contains_key(a) ==> self.axes@.contains_key(a)
                    && axes@[a] == 0,
                forall|a: Axes| #[trigger] self.axes@.contains_key(a) && !axes@.contains_key(a) ==>
                    exists|i: int| it.index() <= i < it.seq().len() && *it.seq()[i].0 == a,
        {
            axes.insert(clone_key(k), 0);
        }
        let mut buttons: HashMap<Buttons, ButtonState> = HashMap::new();
        for (k, _v) in it: self.buttons.iter()
            invariant
                lawful_logical::<Axes, Buttons>(),
                forall|b: Buttons| #[trigger] buttons@.contains_key(b) ==> self.buttons@.contains_key(b)
                    && buttons@[b]@ == (false, false),
                forall|b: Buttons| #[trigger] self.buttons@.contains_key(b) && !buttons@.contains_key(b) ==>
                    exists|i: int| it.index() <= i < it.seq().len() && *it.seq()[i].0 == b,
        {
            buttons.insert(clone_key(k), ButtonState::released_state());
        }
        self.axes = axes;
        self.buttons = buttons;
        assert(self@.axes =~= reset_player(old(self)@).axes);
        assert(self@.buttons =~= reset_player(old(self)@).buttons);
    }
}

// ---------------------------------------------------------------------
// All players
// ---------------------------------------------------------------------

/// The input state of every player, together with the bindings that turn
/// physical events into logical ones for each player.
#[derive(Debug, PartialEq, Clone)]
pub struct InputState<Axes, Buttons> where Axes: Hash + Eq + Clone, Buttons: Hash + Eq + Clone {
    input_bindings: HashMap<usize, InputBinding<Axes, Buttons>>,
    player_states: HashMap<usize, PlayerInputState<Axes, Buttons>>,
}

impl<Axes, Buttons> View for InputState<Axes, Buttons> where
    Axes: Hash + Eq + Clone,
    Buttons: Hash + Eq + Clone,
 {
    type V = InputModel<Axes, Buttons>;

    closed spec fn view(&self) -> InputModel<Axes, Buttons> {
        InputModel {
            bindings: self.input_bindings@.map_values(|b: InputBinding<Axes, Buttons>| b@),
            players: self.player_states@.map_values(|s: PlayerInputState<Axes, Buttons>| s@),
        }
    }
}

impl<Axes, Buttons> Default for InputState<Axes, Buttons> where
    Axes: Hash + Eq + Clone + std::fmt::Debug,
    Buttons: Hash + Eq + Clone + std::fmt::Debug,
 {
    fn default() -> (r: Self)
        ensures
            r@.bindings == Map::<usize, BindingModel<Axes, Buttons>>::empty(),
            r@.players == Map::<usize, PlayerModel<Axes, Buttons>>::empty(),
    {
        InputState::new()
    }
}

impl<Axes, Buttons> InputState<Axes, Buttons> where
    Axes: Hash + Eq + Clone + std::fmt::Debug,
    Buttons: Hash + Eq + Clone + std::fmt::Debug,
 {
    /// Default constructor for an empty InputState
    fn new() -> (r: Self)
        ensures
            r@.bindings == Map::<usize, BindingModel<Axes, Buttons>>::empty(),
            r@.players == Map::<usize, PlayerModel<Axes, Buttons>>::empty(),
    {
        let r = InputState { input_bindings: HashMap::new(), player_states: HashMap::new() };
        assert(r@.bindings =~= Map::empty());
        assert(r@.players =~= Map::empty());
        r
    }

    /// Advances every player's state by one frame.
    pub fn update(&mut self)
        requires
            lawful_logical::<Axes, Buttons>(),
        ensures
            final(self)@.bindings == old(self)@.bindings,
            final(self)@.players == old(self)@.players.map_values(
                |m: PlayerModel<Axes, Buttons>| advance_frame(m),
            ),
    {
        let ids = keys_of(&self.player_states);
        let ghost m0 = self@;
        let mut i: usize = 0;
        while i < ids.len()
            invariant
                lawful_logical::<Axes, Buttons>(),
                ids@.no_duplicates(),
                forall|k: usize| old(self).player_states@.contains_key(k) <==> #[trigger] ids@.contains(k),
                m0 == old(self)@,
                0 <= i <= ids.len(),
                self.input_bindings@ == old(self).input_bindings@,
                self.player_states@.dom() == old(self).player_states@.dom(),
                forall|p: usize| #[trigger] self.player_states@.contains_key(p) ==>
                    self.player_states@[p]@ == if ids@.take(i as int).contains(p) {
                        advance_frame(m0.players[p])
                    } else {
                        m0.players[p]
                    },
            decreases ids.len() - i,
        {
            let pid = ids[i];
            assert(ids@.contains(pid));
            proof {
                lemma_not_in_prefix(ids@, i as int);
                lemma_prefix_grows(ids@, i as int);
            }
            let mut ps = self.player_states.remove(&pid).unwrap();
            ps.update();
            self.player_states.insert(pid, ps);
            i = i + 1;
        }
        proof {
            assert(ids@.take(ids.len() as int) =~= ids@);
        }
        assert(self@.bindings =~= old(self)@.bindings);
        assert(self@.players =~= old(self)@.players.map_values(
            |m: PlayerModel<Axes, Buttons>| advance_frame(m),
        ));
    }

    /// Signals to all player state that a key was pressed, updating them accordingly
    pub fn update_key_down(&mut self, key: KeyCode)
        requires
            lawful_logical::<Axes, Buttons>(),
        ensures
            final(self)@ == key_event(old(self)@, key, true),
    {
        self.update_key(key, true)
    }

    /// Signals to all player state that a key was released, updating them accordingly
    pub fn update_key_up(&mut self, key: KeyCode)
        requires
            lawful_logical::<Axes, Buttons>(),
        ensures
            final(self)@ == key_event(old(self)@, key, false),
    {
        self.update_key(key, false)
    }

    /// Code reuse logic for update_key_down & update_key_up
    /// Effectively signals the states that a key was pressed or released
    fn update_key(&mut self, key: KeyCode, started: bool)
        requires
            lawful_logical::<Axes, Buttons>(),
        ensures
            final(self)@ == key_event(old(self)@, key, started),
    {
        let ids = keys_of(&self.input_bindings);
        let ghost m0 = self@;
        proof {
            assert(ids@.take(0).to_set() =~= Set::empty());
            assert(key_event_on(m0, key, started, Set::empty()).players =~= m0.players);
        }
        let mut i: usize = 0;
        while i < ids.len()
            invariant
                lawful_logical::<Axes, Buttons>(),
                ids@.no_duplicates(),
                forall|k: usize| old(self).input_bindings@.contains_key(k) <==> #[trigger] ids@.contains(k),
                m0 == old(self)@,
                0 <= i <= ids.len(),
                self.input_bindings@ == old(self).input_bindings@,
                self@ == key_event_on(m0, key, started, ids@.take(i as int).to_set()),
            decreases ids.len() - i,
        {
            let pid = ids[i];
            let ghost done = ids@.take(i as int).to_set();
            let ghost done2 = ids@.take(i + 1).to_set();
            assert(ids@.contains(pid));
            proof {
                lemma_not_in_prefix(ids@, i as int);
                lemma_prefix_grows(ids@, i as int);
            }
            let ghost cur = self@;
            assert(m0.bindings.contains_key(pid));
            assert(cur.players.contains_key(pid) == m0.players.contains_key(pid));
            assert(player_of(cur, pid) == player_of(m0, pid));
            let binding = self.input_bindings.get(&pid).unwrap();
            assert(binding@ == m0.bindings[pid]);
            let resolved = binding.resolve(key);
            match resolved {
                Some(effect) => {
                    let mut ps = match self.player_states.remove(&pid) {
                        Some(ps) => ps,
                        None => PlayerInputState::new(),
                    };
                    assert(ps@ == player_of(m0, pid));
                    ps.update_effect(effect, started);
                    self.player_states.insert(pid, ps);
                    assert(self@.players =~= cur.players.insert(
                        pid,
                        apply_effect(player_of(m0, pid), m0.bindings[pid].keys[key], started),
                    ));
                },
                None => {
                    assert(!m0.bindings[pid].keys.contains_key(key));
                },
            }
            assert(self@.players =~= key_event_on(m0, key, started, done2).players);
            assert(self@.bindings =~= key_event_on(m0, key, started, done2).bindings);
            i = i + 1;
        }
        proof {
            assert(ids@.take(ids.len() as int) =~= ids@);
            assert(ids@.to_set() =~= m0.bindings.dom());
        }
    }

    /// Signals the target player's state that a physical Gamepad Button was pressed
    pub fn update_gamepad_down(&mut self, gp_button: GamepadButton, player_id: usize)
        requires
            lawful_logical::<Axes, Buttons>(),
        ensures
            final(self)@ == pad_event(old(self)@, gp_button, player_id, true),
    {
        self.update_gamepad(gp_button, player_id, true)
    }

    /// Signals the target player's state that a physical Gamepad Button was released
    pub fn update_gamepad_up(&mut self, gp_button: GamepadButton, player_id: usize)
        requires
            lawful_logical::<Axes, Buttons>(),
        ensures
            final(self)@ == pad_event(old(self)@, gp_button, player_id, false),
    {
        self.update_gamepad(gp_button, player_id, false)
    }

    /// Code reuse logic for update_gamepad_down & update_gamepad_up
    /// Effectively signals the target player's state that a gamepad button
    /// was pressed or released
    fn update_gamepad(&mut self, gp_button: GamepadButton, player_id: usize, started: bool)
        requires
            lawful_logical::<Axes, Buttons>(),
        ensures
            final(self)@ == pad_event(old(self)@, gp_button, player_id, started),
    {
        let resolved = match self.input_bindings.get(&player_id) {
            Some(ib) => ib.resolve_gamepad(gp_button),
            None => None,
        };
        match resolved {
            Some(effect) => {
                let mut ps = match self.player_states.remove(&player_id) {
                    Some(ps) => ps,
                    None => PlayerInputState::new(),
                };
                ps.update_effect(effect, started);
                self.player_states.insert(player_id, ps);
                assert(self@.players =~= pad_event(old(self)@, gp_button, player_id, started).players);
                assert(self@.bindings =~= pad_event(old(self)@, gp_button, player_id, started).bindings);
            },
            None => {},
        }
    }

    /// Gets the raw value of a logical axis for the target player.
    /// The raw value is the exact value of an axis at the present moment, not affected
    /// by the easing factor.
    pub fn get_player_axis_raw(&self, axis: Axes, player_id: usize) -> (r: i8)
        requires
            lawful_logical::<Axes, Buttons>(),
        ensures
            r == axis_raw(player_of(self@, player_id), axis),
    {
        match self.player_states.get(&player_id) {
            Some(ps) => ps.get_axis_raw(axis),
            None => 0,
        }
    }

    /// Gets the raw value of a logical axis for the default player.
    /// The raw value is the exact value of an axis at the present moment, not affected
    /// by the easing factor.
    pub fn get_default_player_axis_raw(&self, axis: Axes) -> (r: i8)
        requires
            lawful_logical::<Axes, Buttons>(),
        ensures
            r == axis_raw(player_of(self@, DEFAULT_PLAYER), axis),
    {
        self.get_player_axis_raw(axis, DEFAULT_PLAYER)
    }

    /// Gets the state of a logical button for the target player
    pub fn get_player_button(&self, button: Buttons, player_id: usize) -> (r: ButtonState)
        requires
            lawful_logical::<Axes, Buttons>(),
        ensures
            r@ == button_of(player_of(self@, player_id), button),
    {
        match self.player_states.get(&player_id) {
            Some(ps) => ps.get_button(button),
            None => ButtonState::released_state(),
        }
    }

    /// Gets the state of a logical button for the default player
    pub fn get_default_player_button(&self, button: Buttons) -> (r: ButtonState)
        requires
            lawful_logical::<Axes, Buttons>(),
        ensures
            r@ == button_of(player_of(self@, DEFAULT_PLAYER), button),
    {
        self.get_player_button(button, DEFAULT_PLAYER)
    }

    /// Asks if the logical button is held down for the target player
    pub fn get_player_button_down(&self, button: Buttons, player_id: usize) -> (r: bool)
        requires
            lawful_logical::<Axes, Buttons>(),
        ensures
            r == is_down(player_of(self@, player_id), button),
    {
        match self.player_states.get(&player_id) {
            Some(ps) => ps.get_button_down(button),
            None => false,
        }
    }

    /// Asks if the logical button is held down for the default player
    pub fn get_default_player_button_down(&self, button: Buttons) -> (r: bool)
        requires
            lawful_logical::<Axes, Buttons>(),
        ensures
            r == is_down(player_of(self@, DEFAULT_PLAYER), button),
    {
        self.get_player_button_down(button, DEFAULT_PLAYER)
    }

    /// Asks if the logical button for the target player has just started
    /// being pressed during the last update
    pub fn get_player_button_pressed(&self, button: Buttons, player_id: usize) -> (r: bool)
        requires
            lawful_logical::<Axes, Buttons>(),
        ensures
            r == is_pressed(player_of(self@, player_id), button),
    {
        match self.player_states.get(&player_id) {
            Some(ps) => ps.get_button_pressed(button),
            None => false,
        }
    }

    /// Asks if the logical button for the default player has just started
    /// being pressed during the last update
    pub fn get_default_player_button_pressed(&self, button: Buttons) -> (r: bool)
        requires
            lawful_logical::<Axes, Buttons>(),
        ensures
            r == is_pressed(player_of(self@, DEFAULT_PLAYER), button),
    {
        self.get_player_button_pressed(button, DEFAULT_PLAYER)
    }

    /// Asks if the logical button for the target player has just
    /// been released during the last update
    pub fn get_player_button_released(&self, button: Buttons, player_id: usize) -> (r: bool)
        requires
            lawful_logical::<Axes, Buttons>(),
        ensures
            r == is_released(player_of(self@, player_id), button),
    {
        match self.player_states.get(&player_id) {
            Some(ps) => ps.get_button_released(button),
            None => false,
        }
    }

    /// Asks if the logical button for the default player has just
    /// been released during the last update
    pub fn get_default_player_button_released(&self, button: Buttons) -> (r: bool)
        requires
            lawful_logical::<Axes, Buttons>(),
        ensures
            r == is_released(player_of(self@, DEFAULT_PLAYER), button),
    {
        self.get_player_button_released(button, DEFAULT_PLAYER)
    }

    /// The players that have an input state, each once.
    pub fn players(&self) -> (r: Vec<usize>)
        requires
            lawful_logical::<Axes, Buttons>(),
        ensures
            r@.no_duplicates(),
            forall|p: usize| self@.players.contains_key(p) <==> #[trigger] r@.contains(p),
    {
        keys_of(&self.player_states)
    }

    /// The axes that a player has touched, each once; none for a player
    /// without an input state.
    pub fn player_axes(&self, player_id: usize) -> (r: Vec<Axes>)
        requires
            lawful_logical::<Axes, Buttons>(),
        ensures
            r@.no_duplicates(),
            forall|a: Axes| player_of(self@, player_id).axes.contains_key(a) <==> #[trigger] r@.contains(a),
    {
        match self.player_states.get(&player_id) {
            Some(ps) => ps.axes(),
            None => Vec::new(),
        }
    }

    /// Resets the Input State for a given player
    pub fn reset_player_input_state(&mut self, player_id: usize)
        requires
            lawful_logical::<Axes, Buttons>(),
        ensures
            final(self)@.bindings == old(self)@.bindings,
            final(self)@.players == if old(self)@.players.contains_key(player_id) {
                old(self)@.players.insert(player_id, reset_player(old(self)@.players[player_id]))
            } else {
                old(self)@.players
            },
    {
        match self.player_states.remove(&player_id) {
            Some(ps) => {
                let mut ps = ps;
                ps.reset_input_state();
                self.player_states.insert(player_id, ps);
                assert(self@.players =~= old(self)@.players.insert(
                    player_id,
                    reset_player(old(self)@.players[player_id]),
                ));
            },
            None => {},
        }
        assert(self@.bindings =~= old(self)@.bindings);
    }

    /// Resets the Input State for the default player
    pub fn reset_default_player_input_state(&mut self)
        requires
            lawful_logical::<Axes, Buttons>(),
        ensures
            final(self)@.bindings == old(self)@.bindings,
            final(self)@.players == if old(self)@.players.contains_key(DEFAULT_PLAYER) {
                old(self)@.players.insert(
                    DEFAULT_PLAYER,
                    reset_player(old(self)@.players[DEFAULT_PLAYER]),
                )
            } else {
                old(self)@.players
            },
    {
        self.reset_player_input_state(DEFAULT_PLAYER)
    }

    /// Resets all players Input State
    pub fn reset_all_player_input_state(&mut self)
        requires
            lawful_logical::<Axes, Buttons>(),
        ensures
            final(self)@.bindings == old(self)@.bindings,
            final(self)@.players == old(self)@.players.map_values(
                |m: PlayerModel<Axes, Buttons>| reset_player(m),
            ),
    {
        let ids = keys_of(&self.player_states);
        let ghost m0 = self@;
        let mut i: usize = 0;
        while i < ids.len()
            invariant
                lawful_logical::<Axes, Buttons>(),
                ids@.no_duplicates(),
                forall|k: usize| old(self).player_states@.contains_key(k) <==> #[trigger] ids@.contains(k),
                m0 == old(self)@,
                0 <= i <= ids.len(),
                self.input_bindings@ == old(self).input_bindings@,
                self.player_states@.dom() == old(self).player_states@.dom(),
                forall|p: usize| #[trigger] self.player_states@.contains_key(p) ==>
                    self.player_states@[p]@ == if ids@.take(i as int).contains(p) {
                        reset_player(m0.players[p])
                    } else {
                        m0.players[p]
                    },
            decreases ids.len() - i,
        {
            let pid = ids[i];
            assert(ids@.contains(pid));
            proof {
                lemma_not_in_prefix(ids@, i as int);
                lemma_prefix_grows(ids@, i as int);
            }
            let mut ps = self.player_states.remove(&pid).unwrap();
            ps.reset_input_state();
            self.player_states.insert(pid, ps);
            i = i + 1;
        }
        proof {
            assert(ids@.take(ids.len() as int) =~= ids@);
        }
        assert(self@.bindings =~= old(self)@.bindings);
        assert(self@.players =~= old(self)@.players.map_values(
            |m: PlayerModel<Axes, Buttons>| reset_player(m),
        ));
    }
}

// ---------------------------------------------------------------------
// Builder
// ---------------------------------------------------------------------

/// Builder pattern wrapping an InputState.
///
/// This can be used to create an InputState parametrized with bindings,
/// one per player.
#[derive(Debug, Clone, PartialEq, Eq)]
pub struct InputStateBuilder<Axes, Buttons> where Axes: Hash + Eq + Clone, Buttons: Hash + Eq + Clone {
    curr_player_id: usize,
    bindings: HashMap<usize, InputBinding<Axes, Buttons>>,
}

impl<Axes, Buttons> View for InputStateBuilder<Axes, Buttons> where
    Axes: Hash + Eq + Clone,
    Buttons: Hash + Eq + Clone,
 {
    type V = BuilderModel<Axes, Buttons>;

    closed spec fn view(&self) -> BuilderModel<Axes, Buttons> {
        BuilderModel {
            curr: self.curr_player_id,
            bindings: self.bindings@.map_values(|b: InputBinding<Axes, Buttons>| b@),
        }
    }
}

impl<Axes, Buttons> Default for InputStateBuilder<Axes, Buttons> where
    Axes: Hash + Eq + Clone,
    Buttons: Hash + Eq + Clone,
 {
    fn default() -> (r: Self)
        ensures
            r@.curr == 0,
            r@.bindings == Map::<usize, BindingModel<Axes, Buttons>>::empty(),
    {
        InputStateBuilder::new()
    }
}

impl<Axes, Buttons> InputStateBuilder<Axes, Buttons> where
    Axes: Hash + Eq + Clone,
    Buttons: Hash + Eq + Clone,
 {
    /// Default constructor for the InputStateBuilder.
    /// Same as calling `default`.
    pub fn new() -> (r: Self)
        ensures
            r@.curr == 0,
            r@.bindings == Map::<usize, BindingModel<Axes, Buttons>>::empty(),
    {
        let r = InputStateBuilder { curr_player_id: 0, bindings: HashMap::new() };
        assert(r@.bindings =~= Map::empty());
        r
    }

    /// Adds a binding to the input state being built
    /// This binding will be used for the next unused player ID.
    /// (on the first call, it will be 0)
    ///
    /// The search for an unused ID starts at the ID that the previous call
    /// chose, so a binding already set up for some player is never
    /// overridden.
    pub fn with_binding(self, binding: InputBinding<Axes, Buttons>) -> (r: Self)
        requires
            free_id_reachable(self@.bindings, self@.curr),
        ensures
            is_first_free_id(self@.bindings, self@.curr, r@.curr),
            r@.bindings == self@.bindings.insert(r@.curr, binding@),
    {
        let mut id: usize = self.curr_player_id;
        while self.bindings.contains_key(&id)
            invariant
                self.curr_player_id <= id,
                free_id_reachable(self@.bindings, id),
                forall|j: usize| self.curr_player_id <= j < id ==> #[trigger] self.bindings@.contains_key(j),
            decreases usize::MAX - id,
        {
            assert(self@.bindings.contains_key(id));
            id = id + 1;
        }
        let mut s = self;
        s.curr_player_id = id;
        s.with_player_binding(binding, id)
    }

    /// Adds a binding to the input state being built
    /// This binding will be used for the specified player
    pub fn with_player_binding(self, binding: InputBinding<Axes, Buttons>, player_id: usize) -> (r:
        Self)
        ensures
            r@.curr == self@.curr,
            r@.bindings == self@.bindings.insert(player_id, binding@),
    {
        let mut s = self;
        s.bindings.insert(player_id, binding);
        assert(s@.bindings =~= self@.bindings.insert(player_id, binding@));
        s
    }

    /// Builds the InputState that has been parametrized
    /// by this builder
    pub fn build(self) -> (r: InputState<Axes, Buttons>)
        ensures
            r@.bindings == self@.bindings,
            r@.players == Map::<usize, PlayerModel<Axes, Buttons>>::empty(),
    {
        let r = InputState { player_states: HashMap::new(), input_bindings: self.bindings };
        assert(r@.players =~= Map::empty());
        r
    }
}

// ---------------------------------------------------------------------
// Laws
// ---------------------------------------------------------------------

/// Pressing a button that was up at the last frame is seen as a press
/// (edge trigger) and as the button being down (level trigger), and not
/// as a release.
pub proof fn law_press_is_edge<Axes, Buttons>(m: PlayerModel<Axes, Buttons>, b: Buttons) where
    Axes: Eq + Hash + Clone,
    Buttons: Eq + Hash + Clone,

    requires
        !button_of(m, b).1,
    ensures
        is_pressed(apply_effect(m, InputEffect::Button(b), true), b),
        is_down(apply_effect(m, InputEffect::Button(b), true), b),
        !is_released(apply_effect(m, InputEffect::Button(b), true), b),
{
}

/// Releasing a button that was down at the last frame is seen as a
/// release, and the button as up.
pub proof fn law_release_is_edge<Axes, Buttons>(m: PlayerModel<Axes, Buttons>, b: Buttons) where
    Axes: Eq + Hash + Clone,
    Buttons: Eq + Hash + Clone,

    requires
        button_of(m, b).1,
    ensures
        is_released(apply_effect(m, InputEffect::Button(b), false), b),
        !is_down(apply_effect(m, InputEffect::Button(b), false), b),
        !is_pressed(apply_effect(m, InputEffect::Button(b), false), b),
{
}

/// After a frame update no button is pressed or released "this frame",
/// while every button stays down or up as it was and every axis keeps
/// its direction.
pub proof fn law_update_clears_edges<Axes, Buttons>(m: PlayerModel<Axes, Buttons>, b: Buttons, a: Axes)
    ensures
        !is_pressed(advance_frame(m), b),
        !is_released(advance_frame(m), b),
        is_down(advance_frame(m), b) == is_down(m, b),
        axis_raw(advance_frame(m), a) == axis_raw(m, a),
{
}

/// After a reset every axis is neutral and every button is up, with no
/// press or release pending.
pub proof fn law_reset_clears<Axes, Buttons>(m: PlayerModel<Axes, Buttons>, b: Buttons, a: Axes)
    ensures
        axis_raw(reset_player(m), a) == 0,
        !is_down(reset_player(m), b),
        !is_pressed(reset_player(m), b),
        !is_released(reset_player(m), b),
{
}

/// Starting an axis binding pushes the axis fully in that binding's
/// direction; stopping it neutralises the axis only if the axis is still
/// pushed that way, so that stopping one direction while the other one
/// is held leaves the other one in effect.
pub proof fn law_axis_start_stop<Axes, Buttons>(m: PlayerModel<Axes, Buttons>, a: Axes, positive: bool) where
    Axes: Eq + Hash + Clone,
    Buttons: Eq + Hash + Clone,

    ensures
        axis_raw(apply_effect(m, InputEffect::Axis(a, positive), true), a) == (if positive {
            1i8
        } else {
            -1i8
        }),
        axis_raw(
            apply_effect(
                apply_effect(m, InputEffect::Axis(a, positive), true),
                InputEffect::Axis(a, positive),
                false,
            ),
            a,
        ) == 0,
        axis_raw(
            apply_effect(
                apply_effect(m, InputEffect::Axis(a, !positive), true),
                InputEffect::Axis(a, positive),
                false,
            ),
            a,
        ) == (if positive {
            -1i8
        } else {
            1i8
        }),
{
}

/// Every axis is always pushed towards -1, 0 or +1: creation, every
/// event, every frame update and every reset keep that so.
pub proof fn law_axis_directions_bounded<Axes, Buttons>(
    m: PlayerModel<Axes, Buttons>,
    e: InputEffect<Axes, Buttons>,
    started: bool,
) where Axes: Eq + Hash + Clone, Buttons: Eq + Hash + Clone
    requires
        player_wf(m),
    ensures
        player_wf(fresh_player::<Axes, Buttons>()),
        player_wf(apply_effect(m, e, started)),
        player_wf(advance_frame(m)),
        player_wf(reset_player(m)),
{
    match e {
        InputEffect::Axis(a0, p) => {
            let n = apply_effect(m, e, started);
            assert forall|a: Axes| #[trigger] n.axes.contains_key(a) implies -1 <= n.axes[a] <= 1 by {
                if a != a0 {
                    assert(m.axes.contains_key(a));
                }
            }
        },
        InputEffect::Button(_) => {},
    }
}

/// A key event only reaches players whose binding binds that key, and
/// each such player applies exactly the effect its binding names; the
/// bindings themselves never change.
pub proof fn law_key_event_routing<Axes, Buttons>(
    m: InputModel<Axes, Buttons>,
    key: KeyCode,
    started: bool,
    p: usize,
) where Axes: Eq + Hash + Clone, Buttons: Eq + Hash + Clone
    ensures
        key_event(m, key, started).bindings == m.bindings,
        m.bindings.contains_key(p) && m.bindings[p].keys.contains_key(key) ==> player_of(
            key_event(m, key, started),
            p,
        ) == apply_effect(player_of(m, p), m.bindings[p].keys[key], started),
        !(m.bindings.contains_key(p) && m.bindings[p].keys.contains_key(key)) ==> player_of(
            key_event(m, key, started),
            p,
        ) == player_of(m, p),
{
}

/// A gamepad event reaches only the player it is addressed to.
pub proof fn law_pad_event_routing<Axes, Buttons>(
    m: InputModel<Axes, Buttons>,
    button: GamepadButton,
    target: usize,
    started: bool,
    p: usize,
) where Axes: Eq + Hash + Clone, Buttons: Eq + Hash + Clone
    requires
        p != target,
    ensures
        pad_event(m, button, target, started).bindings == m.bindings,
        player_of(pad_event(m, button, target, started), p) == player_of(m, p),
{
}

/// A gamepad event reaches the player it is addressed to: when that
/// player's binding binds the button, the bound effect is applied to the
/// player, on a press and on a release alike; otherwise the player is
/// left as it was.
pub proof fn law_pad_event_target<Axes, Buttons>(
    m: InputModel<Axes, Buttons>,
    button: GamepadButton,
    target: usize,
    started: bool,
) where Axes: Eq + Hash + Clone, Buttons: Eq + Hash + Clone
    ensures
        m.bindings.contains_key(target) && m.bindings[target].pads.contains_key(button) ==> player_of(
            pad_event(m, button, target, started),
            target,
        ) == apply_effect(player_of(m, target), m.bindings[target].pads[button], started),
        !(m.bindings.contains_key(target) && m.bindings[target].pads.contains_key(button))
            ==> player_of(pad_event(m, button, target, started), target) == player_of(m, target),
{
}

/// A button effect sets the button's level to whether it started, and
/// leaves its state at the last frame, every other button and every axis
/// as they were.  So pressing a button that was already down at the last
/// frame gives no new press edge, and releasing one that was up gives no
/// release edge.
pub proof fn law_button_effect<Axes, Buttons>(m: PlayerModel<Axes, Buttons>, b: Buttons, other: Buttons, started: bool) where
    Axes: Eq + Hash + Clone,
    Buttons: Eq + Hash + Clone,

    ensures
        button_of(apply_effect(m, InputEffect::Button(b), started), b) == (started, button_of(m, b).1),
        other != b ==> button_of(apply_effect(m, InputEffect::Button(b), started), other) == button_of(m, other),
        apply_effect(m, InputEffect::Button(b), started).axes == m.axes,
        button_of(m, b).1 ==> !is_pressed(apply_effect(m, InputEffect::Button(b), true), b),
        !button_of(m, b).1 ==> !is_released(apply_effect(m, InputEffect::Button(b), false), b),
{
}

/// Adding a binding with `with_binding` never overrides a binding that is
/// already set up, whatever player it was set up for.
pub proof fn law_with_binding_keeps_existing<Axes, Buttons>(
    before: BuilderModel<Axes, Buttons>,
    after: BuilderModel<Axes, Buttons>,
    binding: BindingModel<Axes, Buttons>,
    p: usize,
) where Axes: Eq + Hash + Clone, Buttons: Eq + Hash + Clone
    requires
        is_first_free_id(before.bindings, before.curr, after.curr),
        after.bindings == before.bindings.insert(after.curr, binding),
        before.bindings.contains_key(p),
    ensures
        after.bindings.contains_key(p),
        after.bindings[p] == before.bindings[p],
        after.curr != p,
{
}

/// A binding answers for a key with the effect last bound to that key,
/// and binding one key leaves every other key's effect as it was.
pub proof fn law_bind_then_resolve<Axes, Buttons>(
    b: BindingModel<Axes, Buttons>,
    key: KeyCode,
    other: KeyCode,
    e: InputEffect<Axes, Buttons>,
) where Axes: Eq + Hash + Clone, Buttons: Eq + Hash + Clone
    requires
        other != key,
    ensures
        b.keys.insert(key, e).get(key) == Some(e),
        b.keys.insert(key, e).get(other) == b.keys.get(other),
{
}

} // verus!
