use process_dispatcher::dispatcher::{DispatchState, ProcessingMode};

#[test]
fn parse_all_state_strings() {
    assert_eq!(DispatchState::parse("created"), Some(DispatchState::Created));
    assert_eq!(DispatchState::parse("pending"), Some(DispatchState::Pending));
    assert_eq!(DispatchState::parse("processing"), Some(DispatchState::Processing));
    assert_eq!(DispatchState::parse("error"), Some(DispatchState::Error));
    assert_eq!(DispatchState::parse("completed"), Some(DispatchState::Completed));
    assert_eq!(DispatchState::parse("failed"), Some(DispatchState::Failed));
}

#[test]
fn parse_unknown_state_string() {
    assert_eq!(DispatchState::parse(""), None);
    assert_eq!(DispatchState::parse("Created"), None);
    assert_eq!(DispatchState::parse("done"), None);
    assert_eq!(DispatchState::parse("created "), None);
}

#[test]
fn state_new_matches_parse() {
    assert_eq!(DispatchState::new("created"), DispatchState::Created);
    assert_eq!(DispatchState::new("failed"), DispatchState::Failed);
}

#[test]
fn state_is_finished_classification() {
    assert!(!DispatchState::Created.is_finished());
    assert!(!DispatchState::Pending.is_finished());
    assert!(!DispatchState::Processing.is_finished());
    assert!(!DispatchState::Error.is_finished());
    assert!(DispatchState::Completed.is_finished());
    assert!(DispatchState::Failed.is_finished());
}

#[test]
fn state_as_str_round_trips() {
    for s in [
        DispatchState::Created,
        DispatchState::Pending,
        DispatchState::Processing,
        DispatchState::Error,
        DispatchState::Completed,
        DispatchState::Failed,
    ] {
        assert_eq!(DispatchState::parse(s.as_str()), Some(s));
    }
}

#[test]
fn mode_parse_and_encode() {
    assert_eq!(ProcessingMode::parse(1), Some(ProcessingMode::Regular));
    assert_eq!(ProcessingMode::parse(2), Some(ProcessingMode::Sandbox));
    assert_eq!(ProcessingMode::parse(0), None);
    assert_eq!(ProcessingMode::parse(3), None);
    assert_eq!(ProcessingMode::parse(-1), None);
    assert_eq!(ProcessingMode::new(1), ProcessingMode::Regular);
    assert_eq!(ProcessingMode::new(2), ProcessingMode::Sandbox);
    assert_eq!(u8::from(ProcessingMode::Regular), 1);
    assert_eq!(u8::from(ProcessingMode::Sandbox), 2);
    assert_eq!(ProcessingMode::Regular.as_str(), "Regular");
    assert_eq!(ProcessingMode::Sandbox.as_str(), "Sandbox");
}
