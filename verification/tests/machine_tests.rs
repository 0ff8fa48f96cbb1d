use leonardo::machine::{after_conversion, after_publish, after_store_check, handle, Action, Event,
    State, Step};
use leonardo::publish::PublishOutcome;
use leonardo::raster::ConversionError;

fn text(s: &str) -> Event {
    Event::TextReceived { text: s.to_string() }
}

fn choice(s: &str) -> Event {
    Event::ChoiceReceived { token: s.to_string() }
}

#[test]
fn start_command_asks_for_identifier() {
    let step = handle(State::Idle, Event::StartCommand);
    match step {
        Step::Done { state, action } => {
            assert!(matches!(state, State::AwaitingAppIdentifier));
            assert_eq!(action, Some(Action::AskAppIdentifier));
        }
        _ => panic!("expected a completed transition"),
    }
}

#[test]
fn idle_ignores_other_events() {
    let step = handle(State::Idle, text("hello"));
    match step {
        Step::Done { state, action } => {
            assert!(matches!(state, State::Idle));
            assert_eq!(action, None);
        }
        _ => panic!("expected a completed transition"),
    }
}

#[test]
fn identifier_without_separator_reprompts() {
    let step = handle(State::AwaitingAppIdentifier, text("comdiscord"));
    match step {
        Step::Done { state, action } => {
            assert!(matches!(state, State::AwaitingAppIdentifier));
            assert_eq!(action, Some(Action::AskSeparator));
        }
        _ => panic!("expected a completed transition"),
    }
}

#[test]
fn identifier_with_separator_advances() {
    let step = handle(State::AwaitingAppIdentifier, text("com.discord"));
    match step {
        Step::CheckStore { app_identifier } => {
            assert_eq!(app_identifier, "com.discord");
        }
        _ => panic!("expected a store check demand"),
    }
}

#[test]
fn store_check_outcomes() {
    let (state, action) = after_store_check("com.discord".to_string(), Some(true));
    assert!(matches!(state, State::AwaitingIconImage { .. }));
    assert_eq!(action, Action::AskIcon);
    let (state, action) = after_store_check("com.discord".to_string(), Some(false));
    assert!(matches!(state, State::ConfirmingAppIdentifier { .. }));
    assert_eq!(action, Action::AskStoreConfirm);
}

#[test]
fn failed_store_lookup_aborts_to_idle() {
    let (state, action) = after_store_check("com.discord".to_string(), None);
    assert!(matches!(state, State::Idle));
    assert_eq!(action, Action::ReportLookupFailed);
}

#[test]
fn identifier_confirmation_no_aborts() {
    let state = State::ConfirmingAppIdentifier { app_identifier: "com.discord".to_string() };
    let step = handle(state, choice("no"));
    match step {
        Step::Done { state, action } => {
            assert!(matches!(state, State::Idle));
            assert_eq!(action, Some(Action::ReportAborted));
        }
        _ => panic!("expected a completed transition"),
    }
}

#[test]
fn conversion_failure_aborts_with_stage() {
    let (state, action) = after_conversion(
        "com.discord".to_string(),
        "discord".to_string(),
        "desc".to_string(),
        Err(ConversionError::TraceError),
    );
    assert!(matches!(state, State::Idle));
    assert_eq!(action, Action::ReportConversionFailed { stage: ConversionError::TraceError });
    let (state, action) = after_conversion(
        "com.discord".to_string(),
        "discord".to_string(),
        "desc".to_string(),
        Err(ConversionError::RecodeError),
    );
    assert!(matches!(state, State::Idle));
    assert_eq!(action, Action::ReportConversionFailed { stage: ConversionError::RecodeError });
}

#[test]
fn submission_no_returns_to_idle_without_publish() {
    let state = State::ConfirmingSubmission {
        vector_bytes: vec![1, 2, 3],
        app_identifier: "com.discord".to_string(),
        icon_name: "discord".to_string(),
        description: "desc".to_string(),
    };
    let step = handle(state, choice("no"));
    match step {
        Step::Done { state, action } => {
            assert!(matches!(state, State::Idle));
            assert_eq!(action, Some(Action::ReportAborted));
        }
        Step::Publish { .. } => panic!("a refused submission must not reach the publisher"),
        _ => panic!("expected a completed transition"),
    }
}

#[test]
fn publish_outcome_reported_and_idle() {
    let (state, action) = after_publish(PublishOutcome::PartialPublish);
    assert!(matches!(state, State::Idle));
    assert_eq!(
        action,
        Action::ReportPublishOutcome { outcome: PublishOutcome::PartialPublish }
    );
}

#[test]
fn default_state_is_idle() {
    let s: State = Default::default();
    assert!(matches!(s, State::Idle));
}
