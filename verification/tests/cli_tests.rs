use instocr::cli::{
    capture_rect_in_capture, parse_capture_rect_args, parse_cli_command, parse_idle_seconds,
    parse_resident_args, CaptureRectError, CliCommand,
};
use instocr::geometry::RectI;
use instocr::number::IntErrorKind;

fn args(a: &[&str]) -> Vec<String> {
    a.iter().map(|s| s.to_string()).collect()
}

#[test]
fn idle_seconds() {
    assert_eq!(parse_idle_seconds(&args(&["--idle-seconds", "5"])), Some(5));
    assert_eq!(parse_idle_seconds(&args(&["--measure", "--idle-seconds", "x", "--idle-seconds", "3"])), None);
    assert_eq!(parse_idle_seconds(&args(&["--idle-seconds"])), None);
    assert_eq!(parse_idle_seconds(&args(&[])), None);
}

#[test]
fn default_command_is_measure() {
    match parse_cli_command(&args(&[])) {
        CliCommand::Measure { idle_seconds, resident_warm } => {
            assert_eq!(idle_seconds, 2);
            assert!(!resident_warm);
        }
        _ => panic!("expected measure"),
    }
    match parse_cli_command(&args(&["--resident-warm"])) {
        CliCommand::Measure { idle_seconds, resident_warm } => {
            assert_eq!(idle_seconds, 2);
            assert!(resident_warm);
        }
        _ => panic!("expected measure"),
    }
}

#[test]
fn measure_with_idle_seconds() {
    match parse_cli_command(&args(&["--measure", "--resident-warm", "--idle-seconds", "7"])) {
        CliCommand::Measure { idle_seconds, resident_warm } => {
            assert_eq!(idle_seconds, 7);
            assert!(resident_warm);
        }
        _ => panic!("expected measure"),
    }
}

#[test]
fn validate_hotkey_command() {
    match parse_cli_command(&args(&["--validate-hotkey", "ctrl+alt+d"])) {
        CliCommand::ValidateHotkey(Ok(h)) => assert_eq!(h.display, "Ctrl+Alt+D"),
        _ => panic!("expected a valid hotkey"),
    }
    match parse_cli_command(&args(&["--validate-hotkey"])) {
        CliCommand::ValidateHotkey(Err(e)) => assert_eq!(e, "--validate-hotkey requires a value"),
        _ => panic!("expected missing value"),
    }
    match parse_cli_command(&args(&["--validate-hotkey", "Win+X"])) {
        CliCommand::ValidateHotkey(Err(e)) => assert_eq!(e, "Win hotkeys are reserved by Windows"),
        _ => panic!("expected a rejected hotkey"),
    }
}

#[test]
fn other_commands() {
    assert!(matches!(parse_cli_command(&args(&["--path-benchmark"])), CliCommand::PathBenchmark));
    assert!(matches!(parse_cli_command(&args(&["--resident-warm", "--list-languages"])), CliCommand::ListLanguages));
    match parse_cli_command(&args(&["--capture-rect", "1", "2", "3", "4"])) {
        CliCommand::CaptureRect(rest) => assert_eq!(rest, args(&["1", "2", "3", "4"])),
        _ => panic!("expected capture rect"),
    }
    match parse_cli_command(&args(&["--bogus", "--measure"])) {
        CliCommand::Unknown(other) => assert_eq!(other, "--bogus"),
        _ => panic!("expected unknown"),
    }
}

#[test]
fn capture_rect_numbers() {
    assert_eq!(parse_capture_rect_args(&args(&["10", "-20", "300", "40"])), Ok((10, -20, 300, 40)));
    assert_eq!(parse_capture_rect_args(&args(&["1", "2", "3"])), Err(CaptureRectError::ArgumentCount));
    assert_eq!(
        parse_capture_rect_args(&args(&["1", "y", "3", ""])),
        Err(CaptureRectError::InvalidNumber(IntErrorKind::InvalidDigit))
    );
    assert_eq!(
        parse_capture_rect_args(&args(&["1", "2", "3", ""])),
        Err(CaptureRectError::InvalidNumber(IntErrorKind::Empty))
    );
    assert_eq!(parse_capture_rect_args(&args(&["1", "2", "0", "4"])), Err(CaptureRectError::NonPositiveSize));
    assert_eq!(parse_capture_rect_args(&args(&["1", "2", "5", "-4"])), Err(CaptureRectError::NonPositiveSize));
}

#[test]
fn capture_rect_moves_to_capture_origin() {
    assert_eq!(
        capture_rect_in_capture(100, 50, 30, 20, -1920, 0),
        RectI { left: 2020, top: 50, right: 2050, bottom: 70 }
    );
}

#[test]
fn resident_program_arguments() {
    assert_eq!(parse_resident_args(&args(&[])), Ok(false));
    assert_eq!(parse_resident_args(&args(&["--resident-warm", "--resident-warm"])), Ok(true));
    assert_eq!(
        parse_resident_args(&args(&["--measure"])),
        Err("Use instocr-cli.exe for --measure, --list-languages, and --capture-rect.".to_string())
    );
}
