use sowback::console::{mode_console_flags, mode_log_flags, mode_multi_flags, ConsoleLevel,
    LogMode};

#[test]
fn mode_bits_and_matching() {
    assert_eq!(LogMode::ConsoleBrief.bits(), 1);
    assert_eq!(LogMode::ConsoleDetail.bits(), 2);
    assert_eq!(LogMode::FileJson.bits(), 4);
    assert!(LogMode::FileJson.matches(6));
    assert!(LogMode::ConsoleDetail.matches(6));
    assert!(!LogMode::ConsoleBrief.matches(6));
    assert!(!LogMode::FileJson.matches(0));
}

#[test]
fn mode_flag_sets() {
    assert_eq!(mode_log_flags(false), 4);
    assert_eq!(mode_log_flags(true), 6);
    assert_eq!(mode_console_flags(false), 1);
    assert_eq!(mode_console_flags(true), 0);
    assert_eq!(mode_multi_flags(false), 5);
    assert_eq!(mode_multi_flags(true), 6);
}

#[test]
fn level_labels_are_right_aligned() {
    assert_eq!(ConsoleLevel::Error.as_str(), "ERROR");
    assert_eq!(ConsoleLevel::Warn.as_str(), " WARN");
    assert_eq!(ConsoleLevel::Info.as_str(), " INFO");
    assert_eq!(ConsoleLevel::Debug.as_str(), "DEBUG");
    assert_eq!(ConsoleLevel::Trace.as_str(), "TRACE");
    assert!(ConsoleLevel::Error.uses_stderr());
    assert!(ConsoleLevel::Warn.uses_stderr());
    assert!(ConsoleLevel::Trace.uses_stderr());
    assert!(!ConsoleLevel::Info.uses_stderr());
    assert!(!ConsoleLevel::Debug.uses_stderr());
}
