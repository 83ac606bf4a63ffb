use ggez_goodies::input::{
    ButtonState, InputBinding, InputEffect, InputStateBuilder, KeyCode, PlayerInputState,
};

#[derive(Hash, Eq, PartialEq, Copy, Clone, Debug)]
enum Buttons {
    A,
    B,
    Select,
    Start,
}

#[derive(Hash, Eq, PartialEq, Copy, Clone, Debug)]
enum Axes {
    Horz,
    Vert,
}

// Key codes of the keys the tests use.
const KEY_UP: KeyCode = 1;
const KEY_DOWN: KeyCode = 2;
const KEY_LEFT: KeyCode = 3;
const KEY_RIGHT: KeyCode = 4;
const KEY_Z: KeyCode = 5;
const KEY_X: KeyCode = 6;
const KEY_RETURN: KeyCode = 7;
const KEY_RSHIFT: KeyCode = 8;
const KEY_LSHIFT: KeyCode = 9;
const KEY_Q: KeyCode = 10;
const KEY_W: KeyCode = 11;
const KEY_E: KeyCode = 12;

// Gamepad button codes of the buttons the tests use.
const PAD_DPAD_UP: u32 = 101;
const PAD_DPAD_DOWN: u32 = 102;
const PAD_DPAD_LEFT: u32 = 103;
const PAD_DPAD_RIGHT: u32 = 104;
const PAD_EAST: u32 = 105;
const PAD_SOUTH: u32 = 106;

fn make_input_binding() -> InputBinding<Axes, Buttons> {
    InputBinding::<Axes, Buttons>::new()
        .bind_key_to_button(KEY_Z, Buttons::A)
        .bind_key_to_button(KEY_X, Buttons::B)
        .bind_key_to_button(KEY_RETURN, Buttons::Start)
        .bind_key_to_button(KEY_RSHIFT, Buttons::Select)
        .bind_key_to_button(KEY_LSHIFT, Buttons::Select)
        .bind_key_to_axis(KEY_UP, Axes::Vert, true)
        .bind_key_to_axis(KEY_DOWN, Axes::Vert, false)
        .bind_key_to_axis(KEY_LEFT, Axes::Horz, false)
        .bind_key_to_axis(KEY_RIGHT, Axes::Horz, true)
}

fn make_input_binding_multiple() -> (InputBinding<Axes, Buttons>, InputBinding<Axes, Buttons>) {
    (
        InputBinding::<Axes, Buttons>::new()
            .bind_key_to_axis(KEY_UP, Axes::Vert, false)
            .bind_key_to_axis(KEY_DOWN, Axes::Vert, true)
            .bind_key_to_axis(KEY_LEFT, Axes::Horz, false)
            .bind_key_to_axis(KEY_RIGHT, Axes::Horz, true)
            .bind_key_to_button(KEY_Q, Buttons::A)
            .bind_key_to_button(KEY_E, Buttons::B),
        InputBinding::<Axes, Buttons>::new()
            .bind_gamepad_button_to_axis(PAD_DPAD_UP, Axes::Vert, false)
            .bind_gamepad_button_to_axis(PAD_DPAD_DOWN, Axes::Vert, true)
            .bind_gamepad_button_to_axis(PAD_DPAD_LEFT, Axes::Horz, false)
            .bind_gamepad_button_to_axis(PAD_DPAD_RIGHT, Axes::Horz, true)
            .bind_gamepad_button_to_button(PAD_EAST, Buttons::A)
            .bind_gamepad_button_to_button(PAD_SOUTH, Buttons::B),
    )
}

#[test]
fn test_input_bindings() {
    let ib = make_input_binding();
    assert_eq!(ib.resolve(KEY_Z), Some(InputEffect::Button(Buttons::A)));
    assert_eq!(ib.resolve(KEY_X), Some(InputEffect::Button(Buttons::B)));
    assert_eq!(ib.resolve(KEY_RETURN), Some(InputEffect::Button(Buttons::Start)));
    assert_eq!(ib.resolve(KEY_RSHIFT), Some(InputEffect::Button(Buttons::Select)));
    assert_eq!(ib.resolve(KEY_LSHIFT), Some(InputEffect::Button(Buttons::Select)));

    assert_eq!(ib.resolve(KEY_UP), Some(InputEffect::Axis(Axes::Vert, true)));
    assert_eq!(ib.resolve(KEY_DOWN), Some(InputEffect::Axis(Axes::Vert, false)));
    assert_eq!(ib.resolve(KEY_LEFT), Some(InputEffect::Axis(Axes::Horz, false)));
    assert_eq!(ib.resolve(KEY_RIGHT), Some(InputEffect::Axis(Axes::Horz, true)));

    assert_eq!(ib.resolve(KEY_Q), None);
    assert_eq!(ib.resolve(KEY_W), None);
}

#[test]
fn test_input_bindings_multiple() {
    let (player_one, player_two) = make_input_binding_multiple();
    let mut input_state = InputStateBuilder::new()
        .with_binding(player_one)
        .with_binding(player_two)
        .build();

    input_state.update_key_down(KEY_UP);
    assert!(input_state.get_player_axis_raw(Axes::Vert, 0) < 0);

    input_state.update_key_up(KEY_UP);
    input_state.update_key_down(KEY_DOWN);
    assert!(input_state.get_player_axis_raw(Axes::Vert, 0) > 0);

    input_state.update_key_up(KEY_DOWN);
    assert_eq!(input_state.get_player_axis_raw(Axes::Vert, 0), 0);

    input_state.update_gamepad_down(PAD_DPAD_LEFT, 1);
    assert!(input_state.get_player_axis_raw(Axes::Horz, 1) < 0);

    input_state.update_gamepad_up(PAD_DPAD_LEFT, 1);
    input_state.update_gamepad_down(PAD_DPAD_RIGHT, 1);
    assert!(input_state.get_player_axis_raw(Axes::Horz, 1) > 0);

    input_state.update_gamepad_up(PAD_DPAD_RIGHT, 1);
    assert_eq!(input_state.get_player_axis_raw(Axes::Horz, 1), 0);

    input_state.update_gamepad_down(PAD_EAST, 1);
    assert!(input_state.get_player_button_pressed(Buttons::A, 1));
    assert!(input_state.get_player_button_down(Buttons::A, 1));
    input_state.update();
    assert!(!input_state.get_player_button_pressed(Buttons::A, 1));
    assert!(input_state.get_player_button_down(Buttons::A, 1));

    input_state.update_gamepad_up(PAD_EAST, 1);
    input_state.update_gamepad_down(PAD_SOUTH, 1);
    assert!(input_state.get_player_button_pressed(Buttons::B, 1));
}

#[test]
fn test_input_events() {
    let mut im: PlayerInputState<Axes, Buttons> = PlayerInputState::new();
    im.update_button_down(Buttons::A);
    assert!(im.get_button_down(Buttons::A));
    im.update_button_up(Buttons::A);
    assert!(!im.get_button_down(Buttons::A));
    assert!(im.get_button_up(Buttons::A));

    // Push the 'up' button: the axis is pushed up.
    im.update_axis_start(Axes::Vert, true);
    assert!(im.get_axis_raw(Axes::Vert) > 0);
    // Release it: the axis is released.
    im.update_axis_stop(Axes::Vert, true);
    assert_eq!(im.get_axis_raw(Axes::Vert), 0);

    // Do the same with the 'down' button.
    im.update_axis_start(Axes::Vert, false);
    assert!(im.get_axis_raw(Axes::Vert) < 0);

    // The transition from 'up' to 'down'.
    im.update_axis_start(Axes::Vert, true);
    assert!(im.get_axis_raw(Axes::Vert) > 0);
    im.update_axis_start(Axes::Vert, false);
    im.update();
    im.update_axis_stop(Axes::Vert, true);
    assert!(im.get_axis_raw(Axes::Vert) < 0);
    im.update_axis_stop(Axes::Vert, false);
    assert_eq!(im.get_axis_raw(Axes::Vert), 0);
}

#[test]
fn test_button_edge_transitions() {
    let mut im: PlayerInputState<Axes, Buttons> = PlayerInputState::new();

    // Push a key, confirm it's transitioned.
    assert!(!im.get_button_down(Buttons::A));
    im.update_button_down(Buttons::A);
    assert!(im.get_button_down(Buttons::A));
    assert!(im.get_button_pressed(Buttons::A));
    assert!(!im.get_button_released(Buttons::A));

    // Update, confirm it's still down but
    // wasn't pressed this frame
    im.update();
    assert!(im.get_button_down(Buttons::A));
    assert!(!im.get_button_pressed(Buttons::A));
    assert!(!im.get_button_released(Buttons::A));

    // Release it
    im.update_button_up(Buttons::A);
    assert!(im.get_button_up(Buttons::A));
    assert!(!im.get_button_pressed(Buttons::A));
    assert!(im.get_button_released(Buttons::A));
    im.update();
    assert!(im.get_button_up(Buttons::A));
    assert!(!im.get_button_pressed(Buttons::A));
    assert!(!im.get_button_released(Buttons::A));
}

#[test]
fn button_state_reports_both_frames() {
    let s = ButtonState::default();
    assert!(!s.pressed());
    assert!(!s.pressed_last_frame());
}

#[test]
fn default_player_helpers_follow_player_zero() {
    let (player_one, _) = make_input_binding_multiple();
    let mut input_state = InputStateBuilder::new().with_binding(player_one).build();
    input_state.update_key_down(KEY_Q);
    assert!(input_state.get_default_player_button(Buttons::A).pressed());
    assert!(input_state.get_default_player_button_down(Buttons::A));
    assert!(input_state.get_default_player_button_pressed(Buttons::A));
    assert!(!input_state.get_default_player_button_released(Buttons::A));
    input_state.update();
    input_state.update_key_up(KEY_Q);
    assert!(input_state.get_default_player_button_released(Buttons::A));
    assert!(!input_state.get_default_player_button_down(Buttons::A));
    input_state.update_key_down(KEY_DOWN);
    assert_eq!(input_state.get_default_player_axis_raw(Axes::Vert), 1);
    input_state.reset_default_player_input_state();
    assert_eq!(input_state.get_default_player_axis_raw(Axes::Vert), 0);
    assert!(!input_state.get_default_player_button_released(Buttons::A));
}

#[test]
fn unbound_key_changes_nothing() {
    let mut input_state = InputStateBuilder::new().with_binding(make_input_binding()).build();
    input_state.update_key_down(KEY_Q);
    assert!(!input_state.get_player_button_down(Buttons::A, 0));
    assert_eq!(input_state.get_player_axis_raw(Axes::Vert, 0), 0);
    // A player without a binding never sees anything either.
    input_state.update_gamepad_down(PAD_EAST, 7);
    assert!(!input_state.get_player_button_down(Buttons::A, 7));
}

#[test]
fn reset_all_players_clears_everything() {
    let (one, two) = make_input_binding_multiple();
    let mut input_state = InputStateBuilder::new().with_binding(one).with_binding(two).build();
    input_state.update_key_down(KEY_Q);
    input_state.update_gamepad_down(PAD_SOUTH, 1);
    input_state.reset_all_player_input_state();
    assert!(!input_state.get_player_button_down(Buttons::A, 0));
    assert!(!input_state.get_player_button_down(Buttons::B, 1));
    assert!(!input_state.get_player_button_pressed(Buttons::B, 1));
}

#[test]
fn player_binding_with_explicit_id() {
    let (one, two) = make_input_binding_multiple();
    let mut input_state = InputStateBuilder::new()
        .with_player_binding(two, 0)
        .with_binding(one)
        .build();
    // Player zero got the gamepad binding; the keyboard one went to the
    // first free id, 1.
    input_state.update_key_down(KEY_Q);
    assert!(input_state.get_player_button_down(Buttons::A, 1));
    input_state.update_gamepad_down(PAD_EAST, 0);
    assert!(input_state.get_player_button_down(Buttons::A, 0));
    input_state.reset_player_input_state(1);
    assert!(!input_state.get_player_button_down(Buttons::A, 1));
    assert!(input_state.get_player_button_down(Buttons::A, 0));
}

#[test]
fn touched_axes_and_players_are_listed() {
    let mut im: PlayerInputState<Axes, Buttons> = PlayerInputState::new();
    assert!(im.axes().is_empty());
    im.update_axis_start(Axes::Vert, true);
    im.update_axis_stop(Axes::Vert, true);
    assert_eq!(im.axes(), vec![Axes::Vert]);
    let (one, two) = make_input_binding_multiple();
    let mut st = InputStateBuilder::new().with_binding(one).with_binding(two).build();
    assert!(st.players().is_empty());
    st.update_gamepad_down(PAD_DPAD_LEFT, 1);
    assert_eq!(st.players(), vec![1]);
    assert_eq!(st.player_axes(1), vec![Axes::Horz]);
    assert!(st.player_axes(0).is_empty());
}
