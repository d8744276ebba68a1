use mcp_project_trust::command::{
    can_prompt, is_approval, revocation_message, TrustCommand, TrustEvent, TrustRefusal, TrustReport,
};

fn run(yes: bool, events: &[TrustEvent]) -> Option<TrustCommand> {
    let mut command = TrustCommand::start(yes);
    for event in events {
        command = command.next(*event)?;
    }
    Some(command)
}

#[test]
fn only_y_and_yes_approve() {
    for answer in ["y", "Y", "yes", "YES", " yEs \n", "\ty\r\n", "\u{a0}y\u{3000}"] {
        assert!(is_approval(answer), "{answer:?}");
    }
    for answer in ["", "\n", "n", "no", "yeah", "y e s", "yes!", "ye", "\u{200b}y", "\u{ff59}", "\u{212a}"] {
        assert!(!is_approval(answer), "{answer:?}");
    }
}

#[test]
fn white_space_around_an_answer_is_ignored() {
    for character in '\0'..=char::MAX {
        let spaced = format!("{character}y{character}");
        assert_eq!(is_approval(&spaced), character.is_whitespace());
    }
}

#[test]
fn a_question_needs_both_terminals_and_leave_to_ask() {
    assert!(can_prompt(true, true, false));
    assert!(!can_prompt(false, true, false));
    assert!(!can_prompt(true, false, false));
    assert!(!can_prompt(true, true, true));
}

#[test]
fn approval_beforehand_shows_the_review_and_saves() {
    for hidden in [false, true] {
        let events = [
            TrustEvent::Reviewed(Some(3)),
            TrustEvent::TrustChecked(false),
            TrustEvent::Shown { hidden },
        ];
        assert_eq!(run(true, &events[..2]), Some(TrustCommand::Showing { yes: true, servers: 3 }));
        let saving = run(true, &events).unwrap();
        assert_eq!(saving, TrustCommand::Saving { servers: 3 });
        assert_eq!(
            saving.next(TrustEvent::Saved),
            Some(TrustCommand::Done(TrustReport::Trusted { servers: 3 }))
        );
    }
}

#[test]
fn approval_when_asked_saves() {
    let events = [
        TrustEvent::Reviewed(Some(1)),
        TrustEvent::TrustChecked(false),
        TrustEvent::TerminalProbed(true),
        TrustEvent::Shown { hidden: false },
        TrustEvent::Answered(true),
    ];
    assert_eq!(run(false, &events[..2]), Some(TrustCommand::ProbingTerminal { servers: 1 }));
    assert_eq!(run(false, &events[..4]), Some(TrustCommand::Asking { servers: 1 }));
    assert_eq!(run(false, &events), Some(TrustCommand::Saving { servers: 1 }));
    let mut refused = events;
    refused[4] = TrustEvent::Answered(false);
    assert_eq!(run(false, &refused), Some(TrustCommand::Done(TrustReport::RemainsBlocked)));
}

#[test]
fn hidden_values_disable_asking() {
    let events = [
        TrustEvent::Reviewed(Some(1)),
        TrustEvent::TrustChecked(false),
        TrustEvent::TerminalProbed(true),
        TrustEvent::Shown { hidden: true },
    ];
    assert_eq!(
        run(false, &events),
        Some(TrustCommand::Refused(TrustRefusal::ValuesRedacted))
    );
}

#[test]
fn without_a_terminal_confirmation_is_required() {
    let events = [
        TrustEvent::Reviewed(Some(1)),
        TrustEvent::TrustChecked(false),
        TrustEvent::TerminalProbed(false),
    ];
    assert_eq!(
        run(false, &events),
        Some(TrustCommand::Refused(TrustRefusal::ConfirmationRequired))
    );
}

#[test]
fn nothing_new_ends_the_command() {
    for yes in [false, true] {
        assert_eq!(
            run(yes, &[TrustEvent::Reviewed(None)]),
            Some(TrustCommand::Done(TrustReport::NothingToTrust))
        );
        assert_eq!(
            run(yes, &[TrustEvent::Reviewed(Some(2)), TrustEvent::TrustChecked(true)]),
            Some(TrustCommand::Done(TrustReport::AlreadyTrusted))
        );
    }
}

#[test]
fn unexpected_events_lead_nowhere() {
    assert_eq!(run(true, &[TrustEvent::Saved]), None);
    assert_eq!(run(false, &[TrustEvent::Reviewed(Some(1)), TrustEvent::Answered(true)]), None);
    assert_eq!(run(false, &[TrustEvent::Reviewed(None), TrustEvent::Saved]), None);
}

#[test]
fn messages_are_exact() {
    assert_eq!(
        TrustReport::NothingToTrust.message(),
        "No project-local MCP command servers were found."
    );
    assert_eq!(
        TrustReport::AlreadyTrusted.message(),
        "This exact executable project MCP configuration is already trusted."
    );
    assert_eq!(
        TrustReport::Trusted { servers: 1203 }.message(),
        "Trusted 1203 project MCP server(s). Executable configuration or referenced-environment changes require approval again."
    );
    assert_eq!(
        TrustReport::RemainsBlocked.message(),
        "Project MCP configuration remains blocked."
    );
    assert_eq!(
        TrustRefusal::ValuesRedacted.message(),
        "approval is disabled because environment values were redacted; review the project MCP files and referenced environment values, then rerun with --yes"
    );
    assert_eq!(
        TrustRefusal::ConfirmationRequired.message(),
        "project MCP trust requires confirmation; rerun in an interactive terminal or pass --yes after reviewing the project MCP files"
    );
    assert_eq!(revocation_message(true), "Revoked project MCP trust.");
    assert_eq!(revocation_message(false), "This project had no saved MCP trust decision.");
}
