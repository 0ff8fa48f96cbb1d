//! The per-session conversation state machine: a deterministic function of
//! the current state and the inbound event. Work that needs the outside
//! world — the store lookup, the conversion pipeline, the publisher — is
//! returned as a demand, and its result comes back through the matching
//! `after_*` function.

use vstd::prelude::*;
use crate::publish::PublishOutcome;
use crate::publish::Submission;
use crate::raster::ConversionError;

verus! {

/// True when `text` contains at least one `.`, the domain separator that a
/// valid application identifier must carry.
pub open spec fn has_domain_separator(text: Seq<char>) -> bool {
    exists|i: int| 0 <= i < text.len() && text[i] == '.'
}

/// Decides whether a submitted application identifier is well formed: it must
/// contain a domain separator (`com.discord`, not `comdiscord`).
pub fn app_identifier_valid(text: &str) -> (r: bool)
    ensures
        r == has_domain_separator(text@),
{
    let len = text.unicode_len();
    let mut i: usize = 0;
    while i < len
        invariant
            len == text@.len(),
            0 <= i <= len,
            forall|j: int| 0 <= j < i ==> text@[j] != '.',
        decreases len - i,
    {
        if text.get_char(i) == '.' {
            return true;
        }
        i = i + 1;
    }
    false
}

/// Conversation state of one session. Payload fields accumulate step by
/// step and are dropped only on abort back to `Idle`.
pub enum State {
    Idle,
    AwaitingAppIdentifier,
    ConfirmingAppIdentifier { app_identifier: String },
    AwaitingIconImage { app_identifier: String },
    AwaitingIconName { app_identifier: String, image_ref: String },
    AwaitingDescription { app_identifier: String, image_ref: String, icon_name: String },
    ConfirmingSubmission {
        vector_bytes: Vec<u8>,
        app_identifier: String,
        icon_name: String,
        description: String,
    },
}

impl Default for State {
    /// A session starts idle.
    fn default() -> (r: Self)
        ensures
            r is Idle,
    {
        State::Idle
    }
}

/// One inbound event for a session.
pub enum Event {
    /// The command that starts a submission.
    StartCommand,
    /// A text message.
    TextReceived { text: String },
    /// An uploaded document, by its opaque handle.
    DocumentReceived { image_ref: String },
    /// The token of a pressed button from a two-option prompt.
    ChoiceReceived { token: String },
}

/// One outbound action for the transport to perform.
#[derive(PartialEq, Eq, Structural, Clone, Copy, Debug)]
pub enum Action {
    /// Ask for the application identifier.
    AskAppIdentifier,
    /// The identifier lacks a domain separator: re-prompt.
    AskSeparator,
    /// The store lookup found nothing: ask the user to confirm the
    /// identifier with a two-option prompt.
    AskStoreConfirm,
    /// Ask for the icon image.
    AskIcon,
    /// Ask for the icon name.
    AskName,
    /// Ask for the request description.
    AskDescription,
    /// Show the converted preview and ask for the final confirmation.
    ShowPreview,
    /// A conversion stage failed; the session is back at idle.
    ReportConversionFailed { stage: ConversionError },
    /// The user aborted; the session is back at idle.
    ReportAborted,
    /// The store lookup itself failed; the session is back at idle.
    ReportLookupFailed,
    /// How the publish attempt ended; the session is back at idle.
    ReportPublishOutcome { outcome: PublishOutcome },
}

/// What one event amounts to: either the transition is complete, or outside
/// work is demanded and its result must come back through `after_store_check`,
/// `after_conversion` or `after_publish`.
pub enum Step {
    /// The new state, and at most one outbound action.
    Done { state: State, action: Option<Action> },
    /// Run the store existence check for this identifier.
    CheckStore { app_identifier: String },
    /// Run the conversion pipeline on the uploaded image.
    Convert { app_identifier: String, image_ref: String, icon_name: String, description: String },
    /// Run the repository publisher on this submission.
    Publish { submission: Submission },
}

fn token_is_yes(token: &String) -> (r: bool)
    ensures
        r == (token@ == "yes"@),
{
    let yes = String::from_str("yes");
    token.eq(&yes)
}

/// Advances a session by one event. Every row of the conversation table is a
/// clause: an event that does not match the state's expected shape leaves the
/// state unchanged with no action; a malformed identifier re-prompts; a `no`
/// choice aborts to `Idle` without demanding any outside work.
pub fn handle(state: State, event: Event) -> (r: Step)
    ensures
        state is Idle ==> (match event {
            Event::StartCommand => r == (Step::Done {
                state: State::AwaitingAppIdentifier,
                action: Some(Action::AskAppIdentifier),
            }),
            _ => r == (Step::Done { state: State::Idle, action: None::<Action> }),
        }),
        state is AwaitingAppIdentifier ==> (match event {
            Event::TextReceived { text } => if has_domain_separator(text@) {
                r == (Step::CheckStore { app_identifier: text })
            } else {
                r == (Step::Done {
                    state: State::AwaitingAppIdentifier,
                    action: Some(Action::AskSeparator),
                })
            },
            _ => r == (Step::Done {
                state: State::AwaitingAppIdentifier,
                action: None::<Action>,
            }),
        }),
        state matches State::ConfirmingAppIdentifier { app_identifier } ==> (match event {
            Event::ChoiceReceived { token } => if token@ == "yes"@ {
                r == (Step::Done {
                    state: State::AwaitingIconImage { app_identifier },
                    action: Some(Action::AskIcon),
                })
            } else {
                r == (Step::Done { state: State::Idle, action: Some(Action::ReportAborted) })
            },
            _ => r == (Step::Done {
                state: State::ConfirmingAppIdentifier { app_identifier },
                action: None::<Action>,
            }),
        }),
        state matches State::AwaitingIconImage { app_identifier } ==> (match event {
            Event::DocumentReceived { image_ref } => r == (Step::Done {
                state: State::AwaitingIconName { app_identifier, image_ref },
                action: Some(Action::AskName),
            }),
            _ => r == (Step::Done {
                state: State::AwaitingIconImage { app_identifier },
                action: Some(Action::AskIcon),
            }),
        }),
        state matches State::AwaitingIconName { app_identifier, image_ref } ==> (match event {
            Event::TextReceived { text } => r == (Step::Done {
                state: State::AwaitingDescription { app_identifier, image_ref, icon_name: text },
                action: Some(Action::AskDescription),
            }),
            _ => r == (Step::Done {
                state: State::AwaitingIconName { app_identifier, image_ref },
                action: None::<Action>,
            }),
        }),
        state matches State::AwaitingDescription { app_identifier, image_ref, icon_name } ==> (
        match event {
            Event::TextReceived { text } => r == (Step::Convert {
                app_identifier,
                image_ref,
                icon_name,
                description: text,
            }),
            _ => r == (Step::Done {
                state: State::AwaitingDescription { app_identifier, image_ref, icon_name },
                action: None::<Action>,
            }),
        }),
        state matches State::ConfirmingSubmission {
            vector_bytes,
            app_identifier,
            icon_name,
            description,
        } ==> (match event {
            Event::ChoiceReceived { token } => if token@ == "yes"@ {
                r == (Step::Publish {
                    submission: Submission {
                        app_identifier,
                        icon_name,
                        description,
                        vector_bytes,
                    },
                })
            } else {
                r == (Step::Done { state: State::Idle, action: Some(Action::ReportAborted) })
            },
            _ => r == (Step::Done {
                state: State::ConfirmingSubmission {
                    vector_bytes,
                    app_identifier,
                    icon_name,
                    description,
                },
                action: None::<Action>,
            }),
        }),
{
    match state {
        State::Idle => match event {
            Event::StartCommand => Step::Done {
                state: State::AwaitingAppIdentifier,
                action: Some(Action::AskAppIdentifier),
            },
            _ => Step::Done { state: State::Idle, action: None },
        },
        State::AwaitingAppIdentifier => match event {
            Event::TextReceived { text } => {
                if app_identifier_valid(text.as_str()) {
                    Step::CheckStore { app_identifier: text }
                } else {
                    Step::Done {
                        state: State::AwaitingAppIdentifier,
                        action: Some(Action::AskSeparator),
                    }
                }
            },
            _ => Step::Done { state: State::AwaitingAppIdentifier, action: None },
        },
        State::ConfirmingAppIdentifier { app_identifier } => match event {
            Event::ChoiceReceived { token } => {
                if token_is_yes(&token) {
                    Step::Done {
                        state: State::AwaitingIconImage { app_identifier },
                        action: Some(Action::AskIcon),
                    }
                } else {
                    Step::Done { state: State::Idle, action: Some(Action::ReportAborted) }
                }
            },
            _ => Step::Done {
                state: State::ConfirmingAppIdentifier { app_identifier },
                action: None,
            },
        },
        State::AwaitingIconImage { app_identifier } => match event {
            Event::DocumentReceived { image_ref } => Step::Done {
                state: State::AwaitingIconName { app_identifier, image_ref },
                action: Some(Action::AskName),
            },
            _ => Step::Done {
                state: State::AwaitingIconImage { app_identifier },
                action: Some(Action::AskIcon),
            },
        },
        State::AwaitingIconName { app_identifier, image_ref } => match event {
            Event::TextReceived { text } => Step::Done {
                state: State::AwaitingDescription {
                    app_identifier,
                    image_ref,
                    icon_name: text,
                },
                action: Some(Action::AskDescription),
            },
            _ => Step::Done {
                state: State::AwaitingIconName { app_identifier, image_ref },
                action: None,
            },
        },
        State::AwaitingDescription { app_identifier, image_ref, icon_name } => match event {
            Event::TextReceived { text } => Step::Convert {
                app_identifier,
                image_ref,
                icon_name,
                description: text,
            },
            _ => Step::Done {
                state: State::AwaitingDescription { app_identifier, image_ref, icon_name },
                action: None,
            },
        },
        State::ConfirmingSubmission { vector_bytes, app_identifier, icon_name, description } => {
            match event {
                Event::ChoiceReceived { token } => {
                    if token_is_yes(&token) {
                        Step::Publish {
                            submission: Submission {
                                app_identifier,
                                icon_name,
                                description,
                                vector_bytes,
                            },
                        }
                    } else {
                        Step::Done { state: State::Idle, action: Some(Action::ReportAborted) }
                    }
                },
                _ => Step::Done {
                    state: State::ConfirmingSubmission {
                        vector_bytes,
                        app_identifier,
                        icon_name,
                        description,
                    },
                    action: None,
                },
            }
        },
    }
}

/// Folds the store lookup's answer back into the session: a known identifier
/// goes straight to the image prompt, an unknown one asks the user to
/// confirm first, and a lookup that could not be carried out at all is
/// reported and aborts the session to `Idle`.
pub fn after_store_check(app_identifier: String, lookup: Option<bool>) -> (r: (State, Action))
    ensures
        lookup matches Some(true) ==> r == (
            State::AwaitingIconImage { app_identifier },
            Action::AskIcon,
        ),
        lookup matches Some(false) ==> r == (
            State::ConfirmingAppIdentifier { app_identifier },
            Action::AskStoreConfirm,
        ),
        lookup is None ==> r == (State::Idle, Action::ReportLookupFailed),
{
    match lookup {
        Some(true) => (State::AwaitingIconImage { app_identifier }, Action::AskIcon),
        Some(false) => (
            State::ConfirmingAppIdentifier { app_identifier },
            Action::AskStoreConfirm,
        ),
        None => (State::Idle, Action::ReportLookupFailed),
    }
}

/// Folds the conversion pipeline's result back into the session: success
/// moves to the final confirmation with the vector bytes in hand, failure
/// names the stage and aborts to `Idle`.
pub fn after_conversion(
    app_identifier: String,
    icon_name: String,
    description: String,
    result: Result<Vec<u8>, ConversionError>,
) -> (r: (State, Action))
    ensures
        result matches Result::Ok(vd) ==> r == (
            State::ConfirmingSubmission {
                vector_bytes: vd,
                app_identifier,
                icon_name,
                description,
            },
            Action::ShowPreview,
        ),
        result matches Result::Err(e) ==> r == (
            State::Idle,
            Action::ReportConversionFailed { stage: e },
        ),
{
    match result {
        Result::Ok(vd) => (
            State::ConfirmingSubmission {
                vector_bytes: vd,
                app_identifier,
                icon_name,
                description,
            },
            Action::ShowPreview,
        ),
        Result::Err(e) => (State::Idle, Action::ReportConversionFailed { stage: e }),
    }
}

/// Folds the publisher's outcome back into the session: whatever happened,
/// the outcome is reported and the session returns to `Idle`.
pub fn after_publish(outcome: PublishOutcome) -> (r: (State, Action))
    ensures
        r == (State::Idle, Action::ReportPublishOutcome { outcome }),
{
    (State::Idle, Action::ReportPublishOutcome { outcome })
}

} // verus!
