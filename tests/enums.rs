use ant_msgbus::enums::{ComponentState, LogColor};

#[test]
fn variant_names() {
    assert_eq!(ComponentState::PreInitialized.variant_name(), "Pre_initialized");
    assert_eq!(ComponentState::Running.variant_name(), "Running");
    assert_eq!(ComponentState::Faulted.variant_name(), "Faulted");
    assert_eq!(ComponentState::default(), ComponentState::PreInitialized);
}

#[test]
fn log_colors() {
    assert_eq!(LogColor::Normal.as_ansi(), "");
    assert_eq!(LogColor::Green.as_ansi(), "\x1b[92m");
    assert_eq!(LogColor::Red.as_ansi(), "\x1b[1;31m");
    assert_eq!(LogColor::from(1u8), LogColor::Green);
    assert_eq!(LogColor::from(6u8), LogColor::Red);
    assert_eq!(LogColor::from(0u8), LogColor::Normal);
    assert_eq!(LogColor::from(200u8), LogColor::Normal);
}
