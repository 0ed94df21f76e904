use ggez_inputty::{Behavior, InputHandler, InputtyResult, PhysicalInput, PhysicalInputValue};

#[derive(Clone, Copy, Debug, PartialEq, Eq, Hash)]
enum Input {
    Jump,
    Fire,
    Quit,
    Broken,
}

#[derive(Default)]
struct State {
    log: Vec<(&'static str, PhysicalInput, PhysicalInputValue)>,
    should_exit: bool,
}

enum Action {
    Record(&'static str),
    Exit,
    Fail(&'static str),
}

impl Behavior<State> for Action {
    fn spec_invoke(&self, mut state: State, physical: PhysicalInput, value: PhysicalInputValue) -> (State, InputtyResult) {
        let result = self.invoke(&mut state, physical, value);
        (state, result)
    }

    fn invoke(&self, state: &mut State, physical: PhysicalInput, value: PhysicalInputValue) -> InputtyResult {
        match self {
            Action::Record(name) => {
                state.log.push((name, physical, value));
                Ok(())
            }
            Action::Exit => {
                state.should_exit = true;
                Ok(())
            }
            Action::Fail(message) => Err(message),
        }
    }
}

const KEY_SPACE: u32 = 32;
const KEY_ESCAPE: u32 = 27;
const KEY_E: u32 = 101;

fn names(state: &State) -> Vec<&'static str> {
    state.log.iter().map(|entry| entry.0).collect()
}

#[test]
fn sanity_check() {
    assert_eq!(2 + 2, 4);
}

#[test]
fn unbound_input_invokes_nothing() {
    let mut handler = InputHandler::new()
        .define(Input::Jump, Action::Record("jump"))
        .bind(PhysicalInput::Key(KEY_SPACE, false), Input::Jump);
    let mut state = State::default();
    let results = handler.resolve_and_invoke(
        &mut state,
        PhysicalInput::Key(KEY_ESCAPE, false),
        PhysicalInputValue::Button(true),
    );
    assert!(results.is_empty());
    assert!(state.log.is_empty());
    assert!(!state.should_exit);
    assert!(handler.resolve(&PhysicalInput::Key(KEY_ESCAPE, false)).is_empty());
}

#[test]
fn bind_order_is_invocation_order() {
    let mut handler = InputHandler::new()
        .define(Input::Jump, Action::Record("jump"))
        .define(Input::Fire, Action::Record("fire"))
        .bind(PhysicalInput::MButton(1), Input::Fire)
        .bind(PhysicalInput::MButton(1), Input::Jump);
    let mut state = State::default();
    let results = handler.mouse_button_down_event(&mut state, 1, 10, 20);
    assert_eq!(results, vec![Ok(()), Ok(())]);
    assert_eq!(names(&state), vec!["fire", "jump"]);
    assert_eq!(handler.resolve(&PhysicalInput::MButton(1)), vec![&Input::Fire, &Input::Jump]);
    assert_eq!(state.log[0].1, PhysicalInput::MButton(1));
    assert_eq!(state.log[0].2, PhysicalInputValue::Button(true));
}

#[test]
fn failing_behavior_does_not_stop_siblings() {
    let mut handler = InputHandler::new()
        .define(Input::Broken, Action::Fail("Oh no!"))
        .define(Input::Quit, Action::Exit)
        .bind(PhysicalInput::Key(KEY_E, false), Input::Broken)
        .bind(PhysicalInput::Key(KEY_E, false), Input::Quit);
    let mut state = State::default();
    let results = handler.key_down_event(&mut state, KEY_E, false);
    assert_eq!(results, vec![Err("Oh no!"), Ok(())]);
    assert!(state.should_exit);
}

#[test]
fn wheel_dispatches_once_per_notch() {
    let mut handler = InputHandler::new()
        .define(Input::Jump, Action::Record("right"))
        .define(Input::Fire, Action::Record("left"))
        .define(Input::Quit, Action::Record("up"))
        .bind(PhysicalInput::MWheelX(true), Input::Jump)
        .bind(PhysicalInput::MWheelX(false), Input::Fire)
        .bind(PhysicalInput::MWheelY(true), Input::Quit);
    let mut state = State::default();
    let results = handler.mouse_wheel_event(&mut state, 3, 0);
    assert_eq!(results.len(), 3);
    assert_eq!(names(&state), vec!["right", "right", "right"]);
    for entry in &state.log {
        assert_eq!(entry.1, PhysicalInput::MWheelX(true));
        assert_eq!(entry.2, PhysicalInputValue::Button(true));
    }
}

#[test]
fn wheel_negative_and_vertical() {
    let mut handler = InputHandler::new()
        .define(Input::Fire, Action::Record("left"))
        .define(Input::Quit, Action::Record("up"))
        .bind(PhysicalInput::MWheelX(false), Input::Fire)
        .bind(PhysicalInput::MWheelY(true), Input::Quit);
    let mut state = State::default();
    let results = handler.mouse_wheel_event(&mut state, -2, 1);
    assert_eq!(results.len(), 3);
    assert_eq!(names(&state), vec!["left", "left", "up"]);
    let results = handler.mouse_wheel_event(&mut state, 0, -4);
    assert!(results.is_empty());
    assert_eq!(state.log.len(), 3);
}

#[test]
fn bound_but_undefined_is_silent() {
    let mut handler = InputHandler::new()
        .define(Input::Jump, Action::Record("jump"))
        .bind(PhysicalInput::Key(KEY_SPACE, false), Input::Fire)
        .bind(PhysicalInput::Key(KEY_SPACE, false), Input::Jump);
    let mut state = State::default();
    let results = handler.key_down_event(&mut state, KEY_SPACE, false);
    assert_eq!(results, vec![Ok(())]);
    assert_eq!(names(&state), vec!["jump"]);
    assert_eq!(handler.resolve(&PhysicalInput::Key(KEY_SPACE, false)), vec![&Input::Jump]);
}

#[test]
fn redefining_replaces_behavior() {
    let mut handler = InputHandler::new()
        .define(Input::Jump, Action::Record("first"))
        .bind(PhysicalInput::Key(KEY_SPACE, false), Input::Jump)
        .define(Input::Jump, Action::Record("second"));
    let mut state = State::default();
    let results = handler.key_up_event(&mut state, KEY_SPACE, false);
    assert_eq!(results, vec![Ok(())]);
    assert_eq!(names(&state), vec!["second"]);
    assert_eq!(state.log[0].2, PhysicalInputValue::Button(false));
}

#[test]
fn duplicate_binding_invokes_twice() {
    let mut handler = InputHandler::new()
        .define(Input::Jump, Action::Record("jump"))
        .bind(PhysicalInput::Key(KEY_SPACE, false), Input::Jump)
        .bind(PhysicalInput::Key(KEY_SPACE, false), Input::Jump);
    let mut state = State::default();
    let results = handler.key_down_event(&mut state, KEY_SPACE, false);
    assert_eq!(results.len(), 2);
    assert_eq!(names(&state), vec!["jump", "jump"]);
}

#[test]
fn repeat_flag_is_part_of_the_key() {
    let mut handler = InputHandler::new()
        .define(Input::Jump, Action::Record("press"))
        .define(Input::Fire, Action::Record("held"))
        .bind(PhysicalInput::Key(KEY_SPACE, false), Input::Jump)
        .bind(PhysicalInput::Key(KEY_SPACE, true), Input::Fire);
    let mut state = State::default();
    handler.key_down_event(&mut state, KEY_SPACE, false);
    handler.key_down_event(&mut state, KEY_SPACE, true);
    handler.key_down_event(&mut state, KEY_SPACE, true);
    assert_eq!(names(&state), vec!["press", "held", "held"]);
}

#[test]
fn controller_events_carry_instance_id() {
    let mut handler = InputHandler::new()
        .define(Input::Jump, Action::Record("pad0"))
        .define(Input::Fire, Action::Record("axis1"))
        .bind(PhysicalInput::CButton(0, 4), Input::Jump)
        .bind(PhysicalInput::CAxis(1, 2), Input::Fire);
    let mut state = State::default();
    assert!(handler.controller_button_down_event(&mut state, 4, 1).is_empty());
    assert_eq!(handler.controller_button_down_event(&mut state, 4, 0).len(), 1);
    assert_eq!(handler.controller_button_up_event(&mut state, 4, 0).len(), 1);
    assert!(handler.controller_axis_event(&mut state, 2, 100, 0).is_empty());
    assert_eq!(handler.controller_axis_event(&mut state, 2, -1200, 1).len(), 1);
    assert_eq!(names(&state), vec!["pad0", "pad0", "axis1"]);
    assert_eq!(state.log[0].2, PhysicalInputValue::Button(true));
    assert_eq!(state.log[1].2, PhysicalInputValue::Button(false));
    assert_eq!(state.log[2].1, PhysicalInput::CAxis(1, 2));
    assert_eq!(state.log[2].2, PhysicalInputValue::Axis(-1200));
}

#[test]
fn mouse_motion_and_release() {
    let mut handler = InputHandler::new()
        .define(Input::Jump, Action::Record("move"))
        .define(Input::Fire, Action::Record("release"))
        .bind(PhysicalInput::MMotion, Input::Jump)
        .bind(PhysicalInput::MButton(3), Input::Fire);
    let mut state = State::default();
    assert_eq!(handler.mouse_motion_event(&mut state, 5, 6, -1, 2).len(), 1);
    assert_eq!(handler.mouse_button_up_event(&mut state, 3, 0, 0).len(), 1);
    assert_eq!(state.log[0].2, PhysicalInputValue::XY(5, 6, -1, 2));
    assert_eq!(state.log[1].2, PhysicalInputValue::Button(false));
}

#[test]
fn wheel_changes_state_once_per_notch_horizontal_first() {
    let mut handler = InputHandler::new()
        .define(Input::Jump, Action::Record("x"))
        .define(Input::Fire, Action::Record("y"))
        .bind(PhysicalInput::MWheelX(true), Input::Jump)
        .bind(PhysicalInput::MWheelY(false), Input::Fire);
    let mut state = State::default();
    let results = handler.mouse_wheel_event(&mut state, 2, -2);
    assert_eq!(results, vec![Ok(()), Ok(()), Ok(()), Ok(())]);
    assert_eq!(names(&state), vec!["x", "x", "y", "y"]);
    assert_eq!(state.log[2].1, PhysicalInput::MWheelY(false));
    assert_eq!(state.log[3].2, PhysicalInputValue::Button(true));
}
