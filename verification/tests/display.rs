use mcp_project_trust::display::{
    display_server, environment_assignments, is_invisible_format_character, is_safe_display_char,
    quoted_terminal_text, redaction_hides, review_text, safe_terminal_text, show_review,
    ServerDisplay,
};
use mcp_project_trust::maps::OrderedMap;
use mcp_project_trust::review::{ProjectMcpReview, ProjectMcpServerReview};
use std::path::PathBuf;

fn env(entries: &[(&str, &str)]) -> OrderedMap<String> {
    let mut map = OrderedMap::new();
    for (key, value) in entries {
        map.insert(key.to_string(), value.to_string());
    }
    map
}

fn server(name: &str, args: &[&str], entries: &[(&str, &str)]) -> ProjectMcpServerReview {
    ProjectMcpServerReview {
        name: name.to_string(),
        command: "run \"it\"".to_string(),
        args: args.iter().map(|arg| arg.to_string()).collect(),
        env: env(entries),
    }
}

#[test]
fn untrusted_display_values_cannot_emit_terminal_controls() {
    let safe = safe_terminal_text(
        "ok\x1b]8;;https://evil\x07link\x1b]8;;\x07\nnext\u{202e}spoof\u{200b}\u{fe0f}",
    );
    assert!(safe.chars().all(is_safe_display_char));
    assert!(safe.contains("\\u{1b}"));
    assert!(safe.contains("\\nnext\\u{202e}spoof"));
    assert!(safe.contains("\\u{200b}\\u{fe0f}"));
}

#[test]
fn every_character_is_shown_as_it_is_or_escaped() {
    for character in '\0'..=char::MAX {
        let safe = is_safe_display_char(character);
        assert_eq!(
            safe,
            !character.is_control() && !is_invisible_format_character(character)
        );
        let control = matches!(character as u32, 0..=0x1f | 0x7f..=0x9f);
        assert_eq!(character.is_control(), control);
        let shown = safe_terminal_text(&character.to_string());
        if safe {
            assert_eq!(shown, character.to_string());
        } else {
            let expected = match character {
                '\t' => "\\t".to_string(),
                '\r' => "\\r".to_string(),
                '\n' => "\\n".to_string(),
                other => format!("\\u{{{:x}}}", other as u32),
            };
            assert_eq!(shown, expected);
        }
    }
}

#[test]
fn invisible_characters_are_told_at_the_ends_of_their_ranges() {
    for code in [
        0xad, 0x600, 0x605, 0x61c, 0x6dd, 0x70f, 0x890, 0x891, 0x8e2, 0x180e, 0x200b, 0x200f, 0x202a,
        0x202e, 0x2060, 0x2064, 0x2066, 0x206f, 0xfe00, 0xfe0f, 0xfeff, 0xfff9, 0xfffb, 0x110bd,
        0x110cd, 0x13430, 0x1343f, 0x1bca0, 0x1bca3, 0x1d173, 0x1d17a, 0xe0001, 0xe0020, 0xe007f,
        0xe0100, 0xe01ef,
    ] {
        assert!(is_invisible_format_character(char::from_u32(code).unwrap()));
    }
    for code in [
        0xac, 0xae, 0x5ff, 0x606, 0x200a, 0x2010, 0x2029, 0x202f, 0x205f, 0x2065, 0x2070, 0xfdff,
        0xfe10, 0xfff8, 0xfffc, 0x1342f, 0x13440, 0xe001f, 0xe0080, 0xe00ff, 0xe01f0,
    ] {
        assert!(!is_invisible_format_character(char::from_u32(code).unwrap()));
    }
}

#[test]
fn safe_text_is_kept_and_stable() {
    assert_eq!(safe_terminal_text("plain 'text' \\ \"x\" \u{e9}\u{4e2d}"), "plain 'text' \\ \"x\" \u{e9}\u{4e2d}");
    assert_eq!(safe_terminal_text(""), "");
    let once = safe_terminal_text("a\tb\u{ad}c\u{7f}");
    assert_eq!(once, "a\\tb\\u{ad}c\\u{7f}");
    assert_eq!(safe_terminal_text(&once), once);
}

#[test]
fn quoted_text_is_safe_text_between_quotes() {
    assert_eq!(quoted_terminal_text("say \"hi\""), "\"say \\\"hi\\\"\"");
    assert_eq!(quoted_terminal_text("a\u{1b}b"), "\"a\\\\u{1b}b\"");
}

#[test]
fn assignments_stand_in_order_of_the_variables() {
    let server = server("s", &[], &[("B", "2"), ("A", "1"), ("C", "")]);
    assert_eq!(environment_assignments(&server), vec!["A=1", "B=2", "C="]);
}

#[test]
fn redaction_hides_what_it_changes() {
    let server = server("s", &[], &[("A", "1"), ("B", "2")]);
    let plain = vec!["A=1".to_string(), "B=2".to_string()];
    assert!(!redaction_hides(&server, &plain));
    let redacted = vec!["A=1".to_string(), "B=[redacted]".to_string()];
    assert!(redaction_hides(&server, &redacted));
    let missing = vec!["A=1".to_string()];
    assert!(redaction_hides(&server, &missing));
}

#[test]
fn a_server_is_displayed_with_its_redacted_environment() {
    let server = server("na\nme", &["-x", "a b"], &[("A", "1")]);
    let display = display_server(&server, &vec!["A=***".to_string()]);
    assert_eq!(display.name, "na\\nme");
    assert_eq!(display.command, "\"run \\\"it\\\"\"");
    assert_eq!(display.args, vec!["\"-x\"", "\"a b\""]);
    assert_eq!(display.environment, vec!["\"A=***\""]);
}

#[test]
fn review_lines_are_laid_out_as_sections() {
    let bare = ServerDisplay {
        name: "one".to_string(),
        command: "C1".to_string(),
        args: vec![],
        environment: vec![],
    };
    let full = ServerDisplay {
        name: "two".to_string(),
        command: "C2".to_string(),
        args: vec!["X".to_string(), "Y".to_string()],
        environment: vec!["E".to_string()],
    };
    assert_eq!(
        review_text(&vec![bare, full], "P", true),
        vec![
            "",
            "This project defines 2 MCP server(s) that can run local commands:",
            "  - one",
            "    command: C1",
            "  - two",
            "    command: C2",
            "    arguments:",
            "      - X",
            "      - Y",
            "    environment:",
            "      - E",
            "Project: P",
            "Some environment values are redacted and may affect execution.",
            "Jcode has not started these project-local servers.",
        ]
    );
    assert_eq!(
        review_text(&vec![], "P", false),
        vec![
            "",
            "This project defines 0 MCP server(s) that can run local commands:",
            "Project: P",
            "Jcode has not started these project-local servers.",
        ]
    );
}

#[test]
fn a_shown_review_says_whether_anything_is_hidden() {
    let review = ProjectMcpReview {
        project_root: PathBuf::from("/work/\u{202e}project"),
        fingerprint: "f".to_string(),
        servers: vec![server("first", &[], &[]), server("second", &["a"], &[("KEY", "value")])],
    };
    let plain = vec![vec![], vec!["KEY=value".to_string()]];
    let shown = show_review(&review, &plain);
    assert!(!shown.hidden);
    assert_eq!(
        shown.lines,
        vec![
            "",
            "This project defines 2 MCP server(s) that can run local commands:",
            "  - first",
            "    command: \"run \\\"it\\\"\"",
            "  - second",
            "    command: \"run \\\"it\\\"\"",
            "    arguments:",
            "      - \"a\"",
            "    environment:",
            "      - \"KEY=value\"",
            "Project: \"/work/\\\\u{202e}project\"",
            "Jcode has not started these project-local servers.",
        ]
    );
    let redacted = vec![vec![], vec!["KEY=[redacted]".to_string()]];
    let shown = show_review(&review, &redacted);
    assert!(shown.hidden);
    assert!(shown.lines.contains(&"      - \"KEY=[redacted]\"".to_string()));
    assert!(shown
        .lines
        .contains(&"Some environment values are redacted and may affect execution.".to_string()));
}

#[test]
fn project_text_adds_no_line_and_no_control_to_the_display() {
    let hostile = "x\n  - fake\x1b[2J\u{202e}\r";
    let review = ProjectMcpReview {
        project_root: PathBuf::from("/work/a\nb"),
        fingerprint: "f".to_string(),
        servers: vec![
            server(hostile, &[hostile, hostile], &[(hostile, hostile)]),
            server("plain", &[], &[]),
        ],
    };
    let redacted: Vec<Vec<String>> = review.servers.iter().map(environment_assignments).collect();
    let shown = show_review(&review, &redacted);
    assert!(!shown.hidden);
    assert_eq!(shown.lines.len(), 4 + (2 + 3 + 2) + 2);
    for line in &shown.lines {
        assert!(line.chars().all(is_safe_display_char));
    }
}

#[test]
fn every_variable_is_among_the_assignments() {
    let entries = [("B", "2"), ("A", "1"), ("\u{e9}", "3"), ("a", "4")];
    let shown = environment_assignments(&server("s", &[], &entries));
    assert_eq!(shown.len(), entries.len());
    for (key, value) in entries {
        assert!(shown.contains(&format!("{key}={value}")));
    }
}

#[test]
fn texts_are_made_safe_piece_by_piece() {
    let (a, b) = ("a\u{1b}", "\\u{1b}\u{200b}\n");
    let joined = format!("{a}{b}");
    assert_eq!(
        safe_terminal_text(&joined),
        safe_terminal_text(a) + &safe_terminal_text(b)
    );
}

#[test]
fn redacted_values_are_not_revealed() {
    let shown = |value: &str| {
        let review = ProjectMcpReview {
            project_root: PathBuf::from("/work"),
            fingerprint: "f".to_string(),
            servers: vec![server("s", &[], &[("TOKEN", value)])],
        };
        show_review(&review, &vec![vec!["TOKEN=[redacted]".to_string()]]).lines
    };
    assert_eq!(shown("one"), shown("two"));
    assert!(shown("one").iter().all(|line| !line.contains("one")));
}
