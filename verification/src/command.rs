//! The commands that approve the configuration of a project and take the approval back: what they
//! decide, and what they say.
use crate::text;
use crate::text::decimal_text;
use vstd::prelude::*;
use vstd::string::StringExecFns;

verus! {

/// Whether a character has the property White_Space of Unicode.
pub open spec fn is_white_space(c: char) -> bool {
    ||| '\u{9}' <= c <= '\u{d}'
    ||| c == '\u{20}'
    ||| c == '\u{85}'
    ||| c == '\u{a0}'
    ||| c == '\u{1680}'
    ||| '\u{2000}' <= c <= '\u{200a}'
    ||| '\u{2028}' <= c <= '\u{2029}'
    ||| c == '\u{202f}'
    ||| c == '\u{205f}'
    ||| c == '\u{3000}'
}

/// A text without the white space at its start.
pub open spec fn without_leading_space(value: Seq<char>) -> Seq<char>
    decreases value.len(),
{
    if value.len() > 0 && is_white_space(value[0]) {
        without_leading_space(value.drop_first())
    } else {
        value
    }
}

/// A text without the white space at its end.
pub open spec fn without_trailing_space(value: Seq<char>) -> Seq<char>
    decreases value.len(),
{
    if value.len() > 0 && is_white_space(value.last()) {
        without_trailing_space(value.drop_last())
    } else {
        value
    }
}

/// A text without the white space at its start and its end.
pub open spec fn trimmed(value: Seq<char>) -> Seq<char> {
    without_trailing_space(without_leading_space(value))
}

/// `str::trim` leaves out the white space at the start and the end.
pub assume_specification[ str::trim ](value: &str) -> (part: &str)
    ensures
        part@ == trimmed(value@),
;

/// A character with the letters `A` to `Z` in lower case.
pub open spec fn ascii_lower(c: char) -> char {
    if 'A' <= c <= 'Z' {
        (c as u32 + 32) as char
    } else {
        c
    }
}

/// A text with the letters `A` to `Z` in lower case.
pub open spec fn lowered(value: Seq<char>) -> Seq<char> {
    value.map_values(|c: char| ascii_lower(c))
}

/// `str::to_ascii_lowercase` puts the letters `A` to `Z` into lower case and leaves every other
/// character as it is.
pub assume_specification[ str::to_ascii_lowercase ](value: &str) -> (lower: String)
    ensures
        lower@ == lowered(value@),
;

/// Whether an answer approves: it is `y` or `yes` in any case, white space around it aside.
pub open spec fn approves(input: Seq<char>) -> bool {
    lowered(trimmed(input)) == "y"@ || lowered(trimmed(input)) == "yes"@
}

/// Whether an answer approves: it is `y` or `yes` in any case, white space around it aside.
pub fn is_approval(input: &str) -> (approved: bool)
    ensures
        approved == approves(input@),
{
    let answer = input.trim().to_ascii_lowercase();
    answer == "y".to_owned() || answer == "yes".to_owned()
}

/// Whether a question can be put: it can be answered and read on a terminal, and the user has not
/// asked for no questions.
pub fn can_prompt(input_terminal: bool, error_terminal: bool, non_interactive: bool) -> (able: bool)
    ensures
        able == (input_terminal && error_terminal && !non_interactive),
{
    input_terminal && error_terminal && !non_interactive
}

/// How the command that approves a configuration ends well.
#[derive(Debug, Clone, Copy, PartialEq, Eq)]
pub enum TrustReport {
    /// The project defines no local command.
    NothingToTrust,
    /// The configuration has been approved before.
    AlreadyTrusted,
    /// The configuration, with this number of servers, is approved now.
    Trusted { servers: usize },
    /// The user has not approved the configuration.
    RemainsBlocked,
}

/// Why the command that approves a configuration refuses to.
#[derive(Debug, Clone, Copy, PartialEq, Eq)]
pub enum TrustRefusal {
    /// The user could not see everything that they would approve.
    ValuesRedacted,
    /// The user cannot be asked.
    ConfirmationRequired,
}

/// The command that approves a configuration: what it waits for, or how it ended.
#[derive(Debug, Clone, Copy, PartialEq, Eq)]
pub enum TrustCommand {
    /// Waits for the review of the project.
    Reviewing { yes: bool },
    /// Waits to hear whether the reviewed configuration is approved already.
    CheckingTrust { yes: bool, servers: usize },
    /// Waits to hear whether the user can be asked.
    ProbingTerminal { servers: usize },
    /// Waits until the review is shown.
    Showing { yes: bool, servers: usize },
    /// Waits for the answer of the user.
    Asking { servers: usize },
    /// Waits until the approval is saved.
    Saving { servers: usize },
    /// Ended well.
    Done(TrustReport),
    /// Refused.
    Refused(TrustRefusal),
}

/// What the command that approves a configuration hears.
#[derive(Debug, Clone, Copy, PartialEq, Eq)]
pub enum TrustEvent {
    /// The project defines this number of local commands, or none.
    Reviewed(Option<usize>),
    /// Whether the reviewed configuration is approved already.
    TrustChecked(bool),
    /// Whether the user can be asked.
    TerminalProbed(bool),
    /// The review is shown, and some values of the environment in it were redacted or not.
    Shown { hidden: bool },
    /// Whether the user approved.
    Answered(bool),
    /// The approval is saved.
    Saved,
}

/// What the command turns to on an event; nothing where it does not wait for the event.
pub open spec fn turns_to(command: TrustCommand, event: TrustEvent) -> Option<TrustCommand> {
    match (command, event) {
        (TrustCommand::Reviewing { yes }, TrustEvent::Reviewed(found)) => match found {
            Some(servers) => Some(TrustCommand::CheckingTrust { yes, servers }),
            None => Some(TrustCommand::Done(TrustReport::NothingToTrust)),
        },
        (TrustCommand::CheckingTrust { yes, servers }, TrustEvent::TrustChecked(trusted)) => Some(
            if trusted {
                TrustCommand::Done(TrustReport::AlreadyTrusted)
            } else if yes {
                TrustCommand::Showing { yes, servers }
            } else {
                TrustCommand::ProbingTerminal { servers }
            },
        ),
        (TrustCommand::ProbingTerminal { servers }, TrustEvent::TerminalProbed(able)) => Some(
            if able {
                TrustCommand::Showing { yes: false, servers }
            } else {
                TrustCommand::Refused(TrustRefusal::ConfirmationRequired)
            },
        ),
        (TrustCommand::Showing { yes, servers }, TrustEvent::Shown { hidden }) => Some(
            if yes {
                TrustCommand::Saving { servers }
            } else if hidden {
                TrustCommand::Refused(TrustRefusal::ValuesRedacted)
            } else {
                TrustCommand::Asking { servers }
            },
        ),
        (TrustCommand::Asking { servers }, TrustEvent::Answered(approved)) => Some(
            if approved {
                TrustCommand::Saving { servers }
            } else {
                TrustCommand::Done(TrustReport::RemainsBlocked)
            },
        ),
        (TrustCommand::Saving { servers }, TrustEvent::Saved) => Some(
            TrustCommand::Done(TrustReport::Trusted { servers }),
        ),
        _ => None,
    }
}

impl TrustCommand {
    /// The command at its start. With `yes` the user has approved beforehand.
    pub fn start(yes: bool) -> (command: TrustCommand)
        ensures
            command == (TrustCommand::Reviewing { yes }),
    {
        TrustCommand::Reviewing { yes }
    }

    /// What the command turns to on an event; nothing where it does not wait for the event.
    pub fn next(self, event: TrustEvent) -> (next: Option<TrustCommand>)
        ensures
            next == turns_to(self, event),
    {
        match (self, event) {
            (TrustCommand::Reviewing { yes }, TrustEvent::Reviewed(found)) => match found {
                Some(servers) => Some(TrustCommand::CheckingTrust { yes, servers }),
                None => Some(TrustCommand::Done(TrustReport::NothingToTrust)),
            },
            (TrustCommand::CheckingTrust { yes, servers }, TrustEvent::TrustChecked(trusted)) => {
                if trusted {
                    Some(TrustCommand::Done(TrustReport::AlreadyTrusted))
                } else if yes {
                    Some(TrustCommand::Showing { yes, servers })
                } else {
                    Some(TrustCommand::ProbingTerminal { servers })
                }
            },
            (TrustCommand::ProbingTerminal { servers }, TrustEvent::TerminalProbed(able)) => {
                if able {
                    Some(TrustCommand::Showing { yes: false, servers })
                } else {
                    Some(TrustCommand::Refused(TrustRefusal::ConfirmationRequired))
                }
            },
            (TrustCommand::Showing { yes, servers }, TrustEvent::Shown { hidden }) => {
                if yes {
                    Some(TrustCommand::Saving { servers })
                } else if hidden {
                    Some(TrustCommand::Refused(TrustRefusal::ValuesRedacted))
                } else {
                    Some(TrustCommand::Asking { servers })
                }
            },
            (TrustCommand::Asking { servers }, TrustEvent::Answered(approved)) => {
                if approved {
                    Some(TrustCommand::Saving { servers })
                } else {
                    Some(TrustCommand::Done(TrustReport::RemainsBlocked))
                }
            },
            (TrustCommand::Saving { servers }, TrustEvent::Saved) => {
                Some(TrustCommand::Done(TrustReport::Trusted { servers }))
            },
            _ => None,
        }
    }
}

/// What the command that approves a configuration says when it ended well.
pub open spec fn report_text(report: TrustReport) -> Seq<char> {
    match report {
        TrustReport::NothingToTrust => "No project-local MCP command servers were found."@,
        TrustReport::AlreadyTrusted =>
            "This exact executable project MCP configuration is already trusted."@,
        TrustReport::Trusted { servers } => "Trusted "@ + text::decimal(servers as nat)
            + " project MCP server(s). Executable configuration or referenced-environment changes require approval again."@,
        TrustReport::RemainsBlocked => "Project MCP configuration remains blocked."@,
    }
}

impl TrustReport {
    /// What the command says.
    pub fn message(self) -> (message: String)
        ensures
            message@ == report_text(self),
    {
        match self {
            TrustReport::NothingToTrust => {
                "No project-local MCP command servers were found.".to_owned()
            },
            TrustReport::AlreadyTrusted => {
                "This exact executable project MCP configuration is already trusted.".to_owned()
            },
            TrustReport::Trusted { servers } => {
                let mut message = "Trusted ".to_owned();
                message.append(decimal_text(servers).as_str());
                message.append(
                    " project MCP server(s). Executable configuration or referenced-environment changes require approval again.",
                );
                message
            },
            TrustReport::RemainsBlocked => "Project MCP configuration remains blocked.".to_owned(),
        }
    }
}

/// What the command that approves a configuration says when it refuses to.
pub open spec fn refusal_text(refusal: TrustRefusal) -> Seq<char> {
    match refusal {
        TrustRefusal::ValuesRedacted =>
            "approval is disabled because environment values were redacted; review the project MCP files and referenced environment values, then rerun with --yes"@,
        TrustRefusal::ConfirmationRequired =>
            "project MCP trust requires confirmation; rerun in an interactive terminal or pass --yes after reviewing the project MCP files"@,
    }
}

impl TrustRefusal {
    /// What the command says.
    pub fn message(self) -> (message: String)
        ensures
            message@ == refusal_text(self),
    {
        match self {
            TrustRefusal::ValuesRedacted => {
                "approval is disabled because environment values were redacted; review the project MCP files and referenced environment values, then rerun with --yes".to_owned()
            },
            TrustRefusal::ConfirmationRequired => {
                "project MCP trust requires confirmation; rerun in an interactive terminal or pass --yes after reviewing the project MCP files".to_owned()
            },
        }
    }
}

/// What the command that takes an approval back says, given whether there was one.
pub fn revocation_message(removed: bool) -> (message: String)
    ensures
        message@ == if removed {
            "Revoked project MCP trust."@
        } else {
            "This project had no saved MCP trust decision."@
        },
{
    if removed {
        "Revoked project MCP trust.".to_owned()
    } else {
        "This project had no saved MCP trust decision.".to_owned()
    }
}

} // verus!
