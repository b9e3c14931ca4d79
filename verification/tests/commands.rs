//! The console command language.

use evoarm::commands::{Command, ServoId};

#[test]
fn help_and_quit_parse_in_any_case() {
    assert!(matches!(Command::new_from_string("help"), Ok(Command::Help)));
    assert!(matches!(Command::new_from_string("  HELP  "), Ok(Command::Help)));
    assert!(matches!(Command::new_from_string("Quit"), Ok(Command::Quit)));
}

#[test]
fn empty_lines_are_refused() {
    assert_eq!(Command::new_from_string("").unwrap_err(), "Line is empty");
    assert_eq!(Command::new_from_string("   \t \n").unwrap_err(), "Line is empty");
}

#[test]
fn unknown_commands_are_refused() {
    assert_eq!(Command::new_from_string("dance").unwrap_err(), "Malformed command");
}

#[test]
fn led_lines_parse() {
    assert!(matches!(Command::new_from_string("led on"), Ok(Command::Led(true))));
    assert!(matches!(Command::new_from_string("LED OFF"), Ok(Command::Led(false))));
    assert_eq!(
        Command::led_from_string("led sideways").unwrap_err(),
        "USAGE for LED command: LED <on/off>"
    );
    assert_eq!(
        Command::led_from_string("led on off").unwrap_err(),
        "USAGE for LED command: LED <on/off>"
    );
    assert_eq!(
        Command::led_from_string("servo 1 2").unwrap_err(),
        "Line does not start with LED"
    );
}

#[test]
fn servo_lines_parse() {
    assert!(matches!(
        Command::new_from_string("servo 0 90"),
        Ok(Command::Servo(ServoId::Base, 90))
    ));
    assert!(matches!(
        Command::new_from_string("Servo 2 90.5"),
        Ok(Command::Servo(ServoId::Elbow, 91))
    ));
    assert!(matches!(
        Command::new_from_string("servo 4 0.4"),
        Ok(Command::Servo(ServoId::Hand, 0))
    ));
    assert!(matches!(
        Command::new_from_string("servo 1 180.0"),
        Ok(Command::Servo(ServoId::Shoulder, 180))
    ));
}

#[test]
fn servo_errors_name_the_problem() {
    assert_eq!(
        Command::servo_from_string("servo 1").unwrap_err(),
        "USAGE for Servo command: servo <id> <angle>"
    );
    assert_eq!(
        Command::servo_from_string("servo five 90").unwrap_err(),
        "USAGE for Servo command: servo <id - must be numeric> <angle - between 0 and 180>"
    );
    assert_eq!(Command::servo_from_string("servo 9 90").unwrap_err(), "Servo id is invalid.");
    assert_eq!(Command::servo_from_string("servo -1 90").unwrap_err(), "Servo id is invalid.");
    assert_eq!(
        Command::servo_from_string("servo 1 fast").unwrap_err(),
        "Need a numeric value for angle"
    );
    assert_eq!(
        Command::servo_from_string("servo 1 180.5").unwrap_err(),
        "Angle must be in range [0, 180]"
    );
    assert_eq!(
        Command::servo_from_string("servo 1 -3").unwrap_err(),
        "Angle must be in range [0, 180]"
    );
}

#[test]
fn script_lines_parse() {
    match Command::new_from_string("script runs/day1.txt") {
        Ok(Command::Script(p)) => assert_eq!(p, "runs/day1.txt"),
        _ => panic!("expected a script command"),
    }
    assert_eq!(
        Command::script_from_string("script").unwrap_err(),
        "USAGE: script <path-to-script>"
    );
    assert_eq!(
        Command::script_from_string("script a b").unwrap_err(),
        "USAGE: script <path-to-script>"
    );
}

#[test]
fn servo_ids_map_from_numbers() {
    assert!(matches!(ServoId::from_i32(0), Some(ServoId::Base)));
    assert!(matches!(ServoId::from_i32(1), Some(ServoId::Shoulder)));
    assert!(matches!(ServoId::from_i32(2), Some(ServoId::Elbow)));
    assert!(matches!(ServoId::from_i32(3), Some(ServoId::Wrist)));
    assert!(matches!(ServoId::from_i32(4), Some(ServoId::Hand)));
    assert!(ServoId::from_i32(5).is_none());
    assert!(ServoId::from_i32(-1).is_none());
}

#[test]
fn servo_angles_accept_fractional_forms() {
    assert!(matches!(
        Command::servo_from_string("servo 0 .5"),
        Ok(Command::Servo(ServoId::Base, 1))
    ));
    assert!(matches!(
        Command::servo_from_string("servo 0 5."),
        Ok(Command::Servo(ServoId::Base, 5))
    ));
    assert!(matches!(
        Command::servo_from_string("servo 0 -0.000"),
        Ok(Command::Servo(ServoId::Base, 0))
    ));
    assert_eq!(
        Command::servo_from_string("servo 0 1.2.3").unwrap_err(),
        "Need a numeric value for angle"
    );
    assert_eq!(
        Command::servo_from_string("servo 0 .").unwrap_err(),
        "Need a numeric value for angle"
    );
}

#[test]
fn any_ascii_whitespace_separates_tokens() {
    assert!(matches!(
        Command::new_from_string("led\x0bon"),
        Ok(Command::Led(true))
    ));
    assert!(matches!(
        Command::new_from_string("servo\x0c1\t90\r\n"),
        Ok(Command::Servo(ServoId::Shoulder, 90))
    ));
}
