use tetris::input::{
    accepts_press, Input, Joystick, JoystickState, DELAY_BETWEEN_INTERRUPTS, JOYSTICK_DEADZONE,
};

#[test]
fn constants_of_the_input() {
    assert_eq!(DELAY_BETWEEN_INTERRUPTS, 130);
    assert_eq!(JOYSTICK_DEADZONE, 1000);
    assert_eq!(JoystickState::default(), JoystickState::Center);
}

#[test]
fn stick_at_rest_reports_nothing() {
    let mut stick = Joystick::new(2000, 2000);
    assert_eq!(stick.state_from(2000, 2000), None);
    assert_eq!(stick.state_from(2500, 1500), None);
}

#[test]
fn stick_reports_each_change_once() {
    let mut stick = Joystick::new(2000, 2000);
    assert_eq!(stick.state_from(4000, 2000), Some(JoystickState::Right));
    assert_eq!(stick.state_from(4000, 2100), None);
    assert_eq!(stick.state_from(2000, 2000), Some(JoystickState::Center));
    assert_eq!(stick.state_from(0, 2000), Some(JoystickState::Left));
    assert_eq!(stick.state_from(0, 2000), None);
    assert_eq!(stick.state_from(2000, 0), Some(JoystickState::Down));
}

#[test]
fn stick_points_to_the_axis_that_is_further_out() {
    let stick = Joystick::new(2000, 2000);
    assert_eq!(stick.calculate_state(4000, 2000), JoystickState::Right);
    assert_eq!(stick.calculate_state(4000, 3000), JoystickState::Right);
    assert_eq!(stick.calculate_state(4000, 1000), JoystickState::Right);
    assert_eq!(stick.calculate_state(0, 2000), JoystickState::Left);
    assert_eq!(stick.calculate_state(0, 3000), JoystickState::Left);
    assert_eq!(stick.calculate_state(0, 1000), JoystickState::Left);
    assert_eq!(stick.calculate_state(2000, 0), JoystickState::Down);
    assert_eq!(stick.calculate_state(3000, 0), JoystickState::Down);
    assert_eq!(stick.calculate_state(1000, 0), JoystickState::Down);
    assert_eq!(stick.calculate_state(3000, 4000), JoystickState::TopRight);
    assert_eq!(stick.calculate_state(1000, 4000), JoystickState::TopLeft);
    assert_eq!(stick.calculate_state(2000, 4000), JoystickState::TopLeft);
}

#[test]
fn stick_equally_far_out_on_both_axes_points_nowhere() {
    let stick = Joystick::new(2000, 2000);
    assert_eq!(stick.calculate_state(4000, 4000), JoystickState::Center);
    assert_eq!(stick.calculate_state(0, 0), JoystickState::Center);
    assert_eq!(stick.calculate_state(0, 4000), JoystickState::Center);
}

#[test]
fn dead_zone_is_a_circle_of_radius_one_thousand() {
    let stick = Joystick::new(2000, 2000);
    assert!(stick.is_in_deadzone(0, 0));
    assert!(stick.is_in_deadzone(1000, 0));
    assert!(stick.is_in_deadzone(0, 1000));
    assert!(stick.is_in_deadzone(600, 800));
    assert!(!stick.is_in_deadzone(601, 800));
    assert!(!stick.is_in_deadzone(1001, 0));
    assert!(!stick.is_in_deadzone(800, 800));
    assert_eq!(stick.calculate_state(3000, 2000), JoystickState::Center);
    assert_eq!(stick.calculate_state(3001, 2000), JoystickState::Right);
    assert_eq!(stick.calculate_state(2600, 2800), JoystickState::Center);
    assert_eq!(stick.calculate_state(2600, 2801), JoystickState::TopRight);
}

#[test]
fn readings_at_the_ends_of_the_range_do_not_overflow() {
    let stick = Joystick::new(0, 65535);
    assert!(!stick.is_in_deadzone(65535, 65535));
    assert_eq!(stick.calculate_state(65535, 0), JoystickState::Center);
    assert_eq!(stick.calculate_state(65535, 1), JoystickState::Right);
    assert_eq!(stick.calculate_state(65534, 0), JoystickState::Down);
}

#[test]
fn press_counts_only_after_the_delay() {
    assert!(!accepts_press(Some(0)));
    assert!(!accepts_press(Some(129)));
    assert!(!accepts_press(Some(130)));
    assert!(accepts_press(Some(131)));
    assert!(accepts_press(Some(u64::MAX)));
    assert!(accepts_press(None));
}

#[test]
fn inputs_compare_by_what_they_hold() {
    assert_eq!(Input::Joystick(JoystickState::Down), Input::Joystick(JoystickState::Down));
    assert_ne!(Input::Joystick(JoystickState::Down), Input::Joystick(JoystickState::Left));
    assert_ne!(Input::JoystickButton, Input::Joystick(JoystickState::Center));
}
