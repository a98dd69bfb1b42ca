use eye::servo::{
    update_degree, DriveStep, Error, ServoAngles, ServoControl, ServoControlRoutine,
    SERVO_DOWN_DEFAULT_ANGLE, SERVO_MAX_ANGLE, SERVO_ROTATION_INTERVAL, SERVO_UP_DEFAULT_ANGLE,
};

fn control(dx: i8, dy: i8) -> ServoControl {
    ServoControl { dx, dy }
}

#[test]
fn constants_of_the_pipeline() {
    assert_eq!(SERVO_ROTATION_INTERVAL, 500);
    assert_eq!(SERVO_MAX_ANGLE, 180);
    assert_eq!(SERVO_UP_DEFAULT_ANGLE, 90);
    assert_eq!(SERVO_DOWN_DEFAULT_ANGLE, 90);
}

#[test]
fn error_messages() {
    assert_eq!(Error::ServoNotEnabled.message(), "Servo feature is not enabled");
    assert_eq!(Error::DeviceNotAvailable.message(), "Failed to open servo control device");
    assert_eq!(
        Error::CommunicationFailure.message(),
        "Error during communication with the servo device"
    );
}

#[test]
fn only_zero_zero_stops() {
    assert!(control(0, 0).should_stop());
    assert!(!control(1, 0).should_stop());
    assert!(!control(0, -1).should_stop());
    assert!(!control(-128, 127).should_stop());
}

#[test]
fn update_degree_adds_within_the_range() {
    assert_eq!(update_degree(90, 10), 100);
    assert_eq!(update_degree(90, -10), 80);
    assert_eq!(update_degree(90, 0), 90);
    assert_eq!(update_degree(0, 127), 127);
    assert_eq!(update_degree(180, -128), 52);
}

#[test]
fn update_degree_stops_at_the_upper_bound() {
    assert_eq!(update_degree(179, 10), 180);
    assert_eq!(update_degree(180, 1), 180);
    assert_eq!(update_degree(170, 10), 180);
    assert_eq!(update_degree(100, 127), 180);
}

#[test]
fn update_degree_stops_at_the_lower_bound() {
    assert_eq!(update_degree(5, -10), 0);
    assert_eq!(update_degree(0, -1), 0);
    assert_eq!(update_degree(10, -10), 0);
    assert_eq!(update_degree(127, -128), 0);
}

#[test]
fn angles_start_in_the_middle() {
    let angles = ServoAngles::new();
    assert_eq!(angles.up_degree(), 90);
    assert_eq!(angles.down_degree(), 90);
}

#[test]
fn angles_are_made_within_the_range() {
    let angles = ServoAngles::at(200, 255);
    assert_eq!((angles.up_degree(), angles.down_degree()), (180, 180));
    let angles = ServoAngles::at(180, 0);
    assert_eq!((angles.up_degree(), angles.down_degree()), (180, 0));
}

#[test]
fn angle_clamping_at_179_plus_10() {
    let mut angles = ServoAngles::at(179, 90);
    angles.rotate(0, 10);
    assert_eq!(angles.up_degree(), 180);
    assert_eq!(angles.down_degree(), 90);
}

#[test]
fn dx_turns_the_lower_servo_and_dy_the_upper() {
    let mut angles = ServoAngles::new();
    angles.rotate(3, -4);
    assert_eq!(angles.down_degree(), 93);
    assert_eq!(angles.up_degree(), 86);
}

#[test]
fn angles_never_leave_the_range() {
    let mut angles = ServoAngles::new();
    for _ in 0..10 {
        angles.rotate(127, -128);
        assert!(angles.up_degree() <= 180 && angles.down_degree() <= 180);
    }
    assert_eq!((angles.up_degree(), angles.down_degree()), (0, 180));
    for _ in 0..10 {
        angles.rotate(-128, 127);
    }
    assert_eq!((angles.up_degree(), angles.down_degree()), (180, 0));
}

#[test]
fn idle_routine_stays_idle_without_a_command() {
    let mut routine = ServoControlRoutine::new(ServoAngles::new());
    assert!(routine.is_idle());
    assert_eq!(routine.advance(None), DriveStep::Idle);
    assert!(routine.is_idle());
    assert_eq!(routine.angles(), ServoAngles::new());
}

#[test]
fn command_is_applied_again_every_interval() {
    let mut routine = ServoControlRoutine::new(ServoAngles::new());
    assert_eq!(
        routine.advance(Some(control(2, 0))),
        DriveStep::Apply { up_degree: 90, down_degree: 92 }
    );
    assert!(!routine.is_idle());
    assert_eq!(routine.advance(None), DriveStep::Apply { up_degree: 90, down_degree: 94 });
    assert_eq!(routine.advance(None), DriveStep::Apply { up_degree: 90, down_degree: 96 });
}

#[test]
fn newer_command_replaces_the_one_in_flight() {
    let mut routine = ServoControlRoutine::new(ServoAngles::new());
    routine.advance(Some(control(2, 0)));
    assert_eq!(
        routine.advance(Some(control(0, 3))),
        DriveStep::Apply { up_degree: 93, down_degree: 92 }
    );
    assert_eq!(routine.advance(None), DriveStep::Apply { up_degree: 96, down_degree: 92 });
}

#[test]
fn stop_command_ends_the_drive() {
    let mut routine = ServoControlRoutine::new(ServoAngles::new());
    routine.advance(Some(control(2, 0)));
    assert_eq!(routine.advance(Some(control(0, 0))), DriveStep::Idle);
    assert!(routine.is_idle());
    assert_eq!(routine.advance(None), DriveStep::Idle);
    assert_eq!(routine.angles(), ServoAngles::at(90, 92));
}

#[test]
fn stop_command_to_an_idle_routine_moves_nothing() {
    let mut routine = ServoControlRoutine::new(ServoAngles::new());
    assert_eq!(routine.advance(Some(control(0, 0))), DriveStep::Idle);
    assert_eq!(routine.angles(), ServoAngles::new());
}

#[test]
fn burst_of_commands_reaches_the_servo_at_most_twice() {
    let mut routine = ServoControlRoutine::new(ServoAngles::new());
    let mut applied = Vec::new();
    for command in [control(1, 0), control(1, 0), control(0, 0)] {
        match routine.advance(Some(command)) {
            DriveStep::Apply { up_degree, down_degree } => applied.push((up_degree, down_degree)),
            DriveStep::Idle => {}
        }
    }
    assert!(applied.len() <= 2);
    assert_eq!(applied, vec![(90, 91), (90, 92)]);
    assert!(routine.is_idle());
}

#[test]
fn drive_holds_at_the_bound() {
    let mut routine = ServoControlRoutine::new(ServoAngles::at(179, 1));
    assert_eq!(
        routine.advance(Some(control(-10, 10))),
        DriveStep::Apply { up_degree: 180, down_degree: 0 }
    );
    assert_eq!(routine.advance(None), DriveStep::Apply { up_degree: 180, down_degree: 0 });
}
