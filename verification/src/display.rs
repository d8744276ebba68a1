//! What is shown of a review on a terminal. Every text that a project defines is first rid of
//! control codes and of characters that cannot be seen.
use crate::config;
use crate::maps;
use crate::paths;
use crate::paths::project_key;
use crate::review::{ProjectMcpReview, ProjectMcpServerReview, ServerReview};
use crate::text;
use crate::text::decimal_text;
use vstd::prelude::*;
use vstd::string::StringExecFns;

verus! {

/// Whether a character is a control code: U+0000 to U+001F, or U+007F to U+009F.
pub open spec fn is_control_code(c: char) -> bool {
    c <= '\u{1f}' || '\u{7f}' <= c <= '\u{9f}'
}

/// `char::is_control` tells the control codes, which are the general category Cc of Unicode.
pub assume_specification[ char::is_control ](c: char) -> (control: bool)
    ensures
        control == is_control_code(c),
;

/// Whether a character directs the layout of text without being seen itself.
pub open spec fn is_invisible(c: char) -> bool {
    ||| c == '\u{ad}'
    ||| '\u{600}' <= c <= '\u{605}'
    ||| c == '\u{61c}'
    ||| c == '\u{6dd}'
    ||| c == '\u{70f}'
    ||| '\u{890}' <= c <= '\u{891}'
    ||| c == '\u{8e2}'
    ||| c == '\u{180e}'
    ||| '\u{200b}' <= c <= '\u{200f}'
    ||| '\u{202a}' <= c <= '\u{202e}'
    ||| '\u{2060}' <= c <= '\u{2064}'
    ||| '\u{2066}' <= c <= '\u{206f}'
    ||| '\u{fe00}' <= c <= '\u{fe0f}'
    ||| c == '\u{feff}'
    ||| '\u{fff9}' <= c <= '\u{fffb}'
    ||| c == '\u{110bd}'
    ||| c == '\u{110cd}'
    ||| '\u{13430}' <= c <= '\u{1343f}'
    ||| '\u{1bca0}' <= c <= '\u{1bca3}'
    ||| '\u{1d173}' <= c <= '\u{1d17a}'
    ||| c == '\u{e0001}'
    ||| '\u{e0020}' <= c <= '\u{e007f}'
    ||| '\u{e0100}' <= c <= '\u{e01ef}'
}

/// Whether a character directs the layout of text without being seen itself.
pub fn is_invisible_format_character(character: char) -> (invisible: bool)
    ensures
        invisible == is_invisible(character),
{
    matches!(
        character,
        '\u{00ad}'
            | '\u{0600}'..='\u{0605}'
            | '\u{061c}'
            | '\u{06dd}'
            | '\u{070f}'
            | '\u{0890}'..='\u{0891}'
            | '\u{08e2}'
            | '\u{180e}'
            | '\u{200b}'..='\u{200f}'
            | '\u{202a}'..='\u{202e}'
            | '\u{2060}'..='\u{2064}'
            | '\u{2066}'..='\u{206f}'
            | '\u{fe00}'..='\u{fe0f}'
            | '\u{feff}'
            | '\u{fff9}'..='\u{fffb}'
            | '\u{110bd}'
            | '\u{110cd}'
            | '\u{13430}'..='\u{1343f}'
            | '\u{1bca0}'..='\u{1bca3}'
            | '\u{1d173}'..='\u{1d17a}'
            | '\u{e0001}'
            | '\u{e0020}'..='\u{e007f}'
            | '\u{e0100}'..='\u{e01ef}'
    )
}

/// Whether a character may reach a terminal as it is.
pub open spec fn is_safe(c: char) -> bool {
    !is_control_code(c) && !is_invisible(c)
}

/// Whether a character may reach a terminal as it is.
pub fn is_safe_display_char(character: char) -> (safe: bool)
    ensures
        safe == is_safe(character),
{
    !character.is_control() && !is_invisible_format_character(character)
}

/// A character as an escape sequence, unless it is printable ASCII other than the quotes and the
/// backslash.
pub open spec fn default_escape(c: char) -> Seq<char> {
    if c == '\t' {
        seq!['\\', 't']
    } else if c == '\r' {
        seq!['\\', 'r']
    } else if c == '\n' {
        seq!['\\', 'n']
    } else if c == '\'' || c == '"' || c == '\\' {
        seq!['\\', c]
    } else if '\u{20}' <= c <= '\u{7e}' {
        seq![c]
    } else {
        seq!['\\', 'u', '{'] + text::hexadecimal(c as nat) + seq!['}']
    }
}

/// Calls `char::escape_default`, which writes tab, carriage return, line feed, the quotes and the
/// backslash behind a backslash, leaves the rest of printable ASCII as it is, and writes every
/// other character as `\u{..}` with its number in lowercase hexadecimal.
#[verifier::external_body]
fn escape_character(character: char) -> (escaped: String)
    ensures
        escaped@ == default_escape(character),
{
    character.escape_default().to_string()
}

/// A character as it is shown: as it is where it is safe, else as an escape sequence.
pub open spec fn safe_form(c: char) -> Seq<char> {
    if is_safe(c) {
        seq![c]
    } else {
        default_escape(c)
    }
}

/// A text as it is shown, character by character.
pub open spec fn safe_text(value: Seq<char>) -> Seq<char>
    decreases value.len(),
{
    if value.len() == 0 {
        seq![]
    } else {
        safe_text(value.drop_last()) + safe_form(value.last())
    }
}

/// Whether every character of a text may reach a terminal as it is.
pub open spec fn all_safe(value: Seq<char>) -> bool {
    forall|i: int| 0 <= i < value.len() ==> is_safe(#[trigger] value[i])
}

proof fn lemma_hexadecimal_safe(number: nat)
    ensures
        all_safe(text::hexadecimal(number)),
    decreases number,
{
    if number >= 16 {
        lemma_hexadecimal_safe(number / 16);
    }
}

/// What is shown of a text is safe, whatever the text holds.
pub proof fn lemma_safe_text_is_safe(value: Seq<char>)
    ensures
        all_safe(safe_text(value)),
    decreases value.len(),
{
    if value.len() > 0 {
        lemma_safe_text_is_safe(value.drop_last());
        lemma_hexadecimal_safe(value.last() as nat);
        assert(all_safe(safe_form(value.last())));
    }
}

/// A text as it is shown on a terminal: every character that could direct the terminal, or that
/// cannot be seen, is written as an escape sequence.
pub fn safe_terminal_text(value: &str) -> (sanitized: String)
    ensures
        sanitized@ == safe_text(value@),
        all_safe(sanitized@),
{
    let mut sanitized = String::new();
    for character in iter: value.chars()
        invariant
            iter.seq() == value@,
            sanitized@ == safe_text(value@.take(iter.index() as int)),
    {
        proof {
            assert(value@.take(iter.index() as int + 1).drop_last() =~= value@.take(
                iter.index() as int,
            ));
        }
        if is_safe_display_char(character) {
            sanitized.push(character);
        } else {
            sanitized.append(escape_character(character).as_str());
        }
        assert(sanitized@ =~= safe_text(value@.take(iter.index() as int + 1)));
    }
    assert(value@.take(value@.len() as int) =~= value@);
    proof {
        lemma_safe_text_is_safe(value@);
    }
    sanitized
}

/// A text in the form that the `{:?}` of a format string gives it: between double quotes, with
/// escape sequences inside.
pub uninterp spec fn debug_form(value: Seq<char>) -> Seq<char>;

/// Formats a string with `{:?}`. The form depends on the text alone; which characters it writes as
/// escape sequences is left unsaid.
#[verifier::external_body]
fn debug_text(value: &str) -> (form: String)
    ensures
        form@ == debug_form(value@),
{
    format!("{:?}", value)
}

/// A text as it is shown between quotes.
pub open spec fn quoted_text(value: Seq<char>) -> Seq<char> {
    debug_form(safe_text(value))
}

/// A text as it is shown between quotes.
pub fn quoted_terminal_text(value: &str) -> (shown: String)
    ensures
        shown@ == quoted_text(value@),
{
    debug_text(safe_terminal_text(value).as_str())
}

/// The texts of a server as they are printed.
pub struct ServerDisplay {
    pub name: String,
    pub command: String,
    pub args: Vec<String>,
    pub environment: Vec<String>,
}

/// The texts of a server as they are printed.
#[verifier::ext_equal]
pub struct ServerTexts {
    pub name: Seq<char>,
    pub command: Seq<char>,
    pub args: Seq<Seq<char>>,
    pub environment: Seq<Seq<char>>,
}

impl View for ServerDisplay {
    type V = ServerTexts;

    open spec fn view(&self) -> ServerTexts {
        ServerTexts {
            name: self.name@,
            command: self.command@,
            args: config::text_views(self.args@),
            environment: config::text_views(self.environment@),
        }
    }
}

/// An entry of the environment as an assignment.
pub open spec fn assignment(entry: (Seq<char>, Seq<char>)) -> Seq<char> {
    entry.0 + seq!['='] + entry.1
}

/// An environment as assignments, in ascending order of the variables.
pub open spec fn assignments(env: Map<Seq<char>, Seq<char>>) -> Seq<Seq<char>> {
    maps::listing(env).map_values(|entry: (Seq<char>, Seq<char>)| assignment(entry))
}

/// The environment of a server as assignments, in ascending order of the variables.
pub fn environment_assignments(server: &ProjectMcpServerReview) -> (texts: Vec<String>)
    ensures
        config::text_views(texts@) == assignments(server@.env),
        maps::lists(maps::listing(server@.env), server@.env),
{
    let mut texts: Vec<String> = Vec::new();
    let count = server.env.len();
    let mut i: usize = 0;
    while i < count
        invariant
            i == texts.len(),
            i <= count,
            count == maps::listing(server.env@).len(),
            maps::lists(maps::listing(server.env@), server.env@),
            forall|j: int|
                0 <= j < i ==> (#[trigger] texts[j])@ == assignment(
                    maps::listing(server.env@)[j],
                ),
        decreases count - i,
    {
        let mut text = server.env.key_at(i).clone();
        text.push('=');
        text.append(server.env.value_at(i).as_str());
        assert(text@ =~= assignment(maps::listing(server.env@)[i as int]));
        texts.push(text);
        i += 1;
    }
    assert(config::text_views(texts@) =~= assignments(server@.env));
    texts
}

/// Texts as they are shown between quotes.
pub open spec fn quoted_texts(texts: Seq<Seq<char>>) -> Seq<Seq<char>> {
    texts.map_values(|value: Seq<char>| quoted_text(value))
}

fn quote_all(texts: &Vec<String>) -> (shown: Vec<String>)
    ensures
        config::text_views(shown@) == quoted_texts(config::text_views(texts@)),
{
    let mut shown: Vec<String> = Vec::new();
    let mut i: usize = 0;
    while i < texts.len()
        invariant
            i == shown.len(),
            i <= texts.len(),
            forall|j: int| 0 <= j < i ==> (#[trigger] shown[j])@ == quoted_text(texts[j]@),
        decreases texts.len() - i,
    {
        shown.push(quoted_terminal_text(texts[i].as_str()));
        i += 1;
    }
    assert(config::text_views(shown@) =~= quoted_texts(config::text_views(texts@)));
    shown
}

/// The texts of a server as they are printed, with its environment as `redacted` has it.
pub open spec fn server_texts(server: ServerReview, redacted: Seq<Seq<char>>) -> ServerTexts {
    ServerTexts {
        name: safe_text(server.name),
        command: quoted_text(server.command),
        args: quoted_texts(server.args),
        environment: quoted_texts(redacted),
    }
}

/// The texts of a server as they are printed, with its environment as `redacted` has it.
pub fn display_server(server: &ProjectMcpServerReview, redacted: &Vec<String>) -> (display:
    ServerDisplay)
    ensures
        display@ == server_texts(server@, config::text_views(redacted@)),
        all_safe(display.name@),
{
    ServerDisplay {
        name: safe_terminal_text(server.name.as_str()),
        command: quoted_terminal_text(server.command.as_str()),
        args: quote_all(&server.args),
        environment: quote_all(redacted),
    }
}

/// A heading with one line for each item below it; nothing where there are no items.
pub open spec fn section(heading: Seq<char>, items: Seq<Seq<char>>) -> Seq<Seq<char>> {
    if items.len() == 0 {
        seq![]
    } else {
        seq![heading] + items.map_values(|item: Seq<char>| "      - "@ + item)
    }
}

/// The lines that show a server.
pub open spec fn server_lines(server: ServerTexts) -> Seq<Seq<char>> {
    seq!["  - "@ + server.name, "    command: "@ + server.command] + section(
        "    arguments:"@,
        server.args,
    ) + section("    environment:"@, server.environment)
}

/// The lines that show servers, one after the other.
pub open spec fn servers_lines(servers: Seq<ServerTexts>) -> Seq<Seq<char>>
    decreases servers.len(),
{
    if servers.len() == 0 {
        seq![]
    } else {
        servers_lines(servers.drop_last()) + server_lines(servers.last())
    }
}

/// The lines that show a review.
pub open spec fn review_lines(
    servers: Seq<ServerTexts>,
    project: Seq<char>,
    hidden: bool,
) -> Seq<Seq<char>> {
    seq![
        Seq::<char>::empty(),
        "This project defines "@ + text::decimal(servers.len())
            + " MCP server(s) that can run local commands:"@,
    ] + servers_lines(servers) + seq!["Project: "@ + project] + (if hidden {
        seq!["Some environment values are redacted and may affect execution."@]
    } else {
        seq![]
    }) + seq!["Jcode has not started these project-local servers."@]
}

fn line(prefix: &str, value: &str) -> (text: String)
    ensures
        text@ == prefix@ + value@,
{
    let mut text = prefix.to_owned();
    text.append(value);
    text
}

fn push_section(lines: &mut Vec<String>, heading: &str, items: &Vec<String>)
    ensures
        config::text_views(final(lines)@) == config::text_views(old(lines)@) + section(
            heading@,
            config::text_views(items@),
        ),
{
    let ghost above = lines@;
    if items.len() > 0 {
        lines.push(heading.to_owned());
        let mut i: usize = 0;
        while i < items.len()
            invariant
                i <= items.len(),
                lines.len() == above.len() + 1 + i,
                forall|j: int| 0 <= j < above.len() ==> #[trigger] lines[j] == above[j],
                lines[above.len() as int]@ == heading@,
                forall|j: int|
                    0 <= j < i ==> #[trigger] lines[above.len() + 1 + j]@ == "      - "@ + items[j]@,
            decreases items.len() - i,
        {
            lines.push(line("      - ", items[i].as_str()));
            i += 1;
        }
        let ghost expected = config::text_views(above) + section(
            heading@,
            config::text_views(items@),
        );
        assert forall|j: int| 0 <= j < expected.len() implies #[trigger] expected[j] == lines[j]@ by {
            if j > above.len() {
                let k = j - above.len() - 1;
                assert(lines[above.len() + 1 + k]@ == "      - "@ + items[k]@);
            }
        }
        assert(config::text_views(lines@) =~= expected);
    } else {
        assert(config::text_views(lines@) =~= config::text_views(above) + section(
            heading@,
            config::text_views(items@),
        ));
    }
}

/// The views of displayed servers.
pub open spec fn display_views(servers: Seq<ServerDisplay>) -> Seq<ServerTexts> {
    servers.map_values(|server: ServerDisplay| server@)
}

/// The lines that show a review, given the texts to print.
pub fn review_text(servers: &Vec<ServerDisplay>, project: &str, hidden: bool) -> (lines: Vec<
    String,
>)
    ensures
        config::text_views(lines@) == review_lines(display_views(servers@), project@, hidden),
{
    let mut lines: Vec<String> = Vec::new();
    lines.push(String::new());
    let mut heading = line("This project defines ", decimal_text(servers.len()).as_str());
    heading.append(" MCP server(s) that can run local commands:");
    lines.push(heading);
    let ghost shown = display_views(servers@);
    let ghost above = config::text_views(lines@);
    assert(above =~= seq![
        Seq::<char>::empty(),
        "This project defines "@ + text::decimal(shown.len())
            + " MCP server(s) that can run local commands:"@,
    ]);
    let mut i: usize = 0;
    assert(shown.take(0) =~= seq![]);
    assert(config::text_views(lines@) =~= above + servers_lines(shown.take(0)));
    while i < servers.len()
        invariant
            i <= servers.len(),
            shown == display_views(servers@),
            config::text_views(lines@) == above + servers_lines(shown.take(i as int)),
        decreases servers.len() - i,
    {
        let server = &servers[i];
        let ghost before = config::text_views(lines@);
        lines.push(line("  - ", server.name.as_str()));
        lines.push(line("    command: ", server.command.as_str()));
        assert(config::text_views(lines@) =~= before + seq![
            "  - "@ + server@.name,
            "    command: "@ + server@.command,
        ]);
        push_section(&mut lines, "    arguments:", &server.args);
        push_section(&mut lines, "    environment:", &server.environment);
        assert(config::text_views(lines@) =~= before + server_lines(server@));
        assert(shown.take(i + 1).drop_last() =~= shown.take(i as int));
        i += 1;
        assert(config::text_views(lines@) =~= above + servers_lines(shown.take(i as int)));
    }
    assert(shown.take(i as int) =~= shown);
    let ghost before = config::text_views(lines@);
    lines.push(line("Project: ", project));
    assert(config::text_views(lines@) =~= before + seq!["Project: "@ + project@]);
    if hidden {
        lines.push("Some environment values are redacted and may affect execution.".to_owned());
    }
    let ghost before_last = config::text_views(lines@);
    assert(before_last =~= before + seq!["Project: "@ + project@] + (if hidden {
        seq!["Some environment values are redacted and may affect execution."@]
    } else {
        seq![]
    }));
    lines.push("Jcode has not started these project-local servers.".to_owned());
    assert(config::text_views(lines@) =~= before_last + seq![
        "Jcode has not started these project-local servers."@,
    ]);
    lines
}

/// Whether a redaction hides anything of an environment.
pub open spec fn hides(server: ServerReview, redacted: Seq<Seq<char>>) -> bool {
    redacted != assignments(server.env)
}

/// Whether a redaction hides anything of the environment of a server.
pub fn redaction_hides(server: &ProjectMcpServerReview, redacted: &Vec<String>) -> (hidden: bool)
    ensures
        hidden == hides(server@, config::text_views(redacted@)),
{
    let plain = environment_assignments(server);
    let ghost expected = config::text_views(plain@);
    let ghost given = config::text_views(redacted@);
    if plain.len() != redacted.len() {
        assert(expected.len() != given.len());
        return true;
    }
    let mut i: usize = 0;
    while i < plain.len()
        invariant
            i <= plain.len(),
            plain.len() == redacted.len(),
            expected == config::text_views(plain@),
            given == config::text_views(redacted@),
            expected == assignments(server@.env),
            forall|j: int| 0 <= j < i ==> #[trigger] expected[j] == given[j],
        decreases plain.len() - i,
    {
        if plain[i] != redacted[i] {
            assert(expected[i as int] != given[i as int]);
            return true;
        }
        i += 1;
    }
    assert(expected =~= given);
    false
}

/// What is shown of a review.
pub struct ShownReview {
    /// The lines to print.
    pub lines: Vec<String>,
    /// Whether a value of the environment was redacted.
    pub hidden: bool,
}

/// The texts of redacted environments, one list for each server.
pub open spec fn redacted_texts(redacted: Seq<Vec<String>>) -> Seq<Seq<Seq<char>>> {
    redacted.map_values(|texts: Vec<String>| config::text_views(texts@))
}

/// Whether redaction hides anything of the environments of servers.
pub open spec fn any_hidden(servers: Seq<ServerReview>, redacted: Seq<Seq<Seq<char>>>) -> bool {
    exists|i: int| 0 <= i < servers.len() && hides(#[trigger] servers[i], redacted[i])
}

/// The texts of servers as they are printed.
pub open spec fn all_texts(
    servers: Seq<ServerReview>,
    redacted: Seq<Seq<Seq<char>>>,
) -> Seq<ServerTexts> {
    Seq::new(servers.len(), |i: int| server_texts(servers[i], redacted[i]))
}

/// What is shown of a review, given its environments with secrets redacted, one list of
/// assignments for each server.
pub fn show_review(review: &ProjectMcpReview, redacted: &Vec<Vec<String>>) -> (shown: ShownReview)
    requires
        redacted.len() == review.servers.len(),
    ensures
        shown.hidden == any_hidden(review@.servers, redacted_texts(redacted@)),
        config::text_views(shown.lines@) == review_lines(
            all_texts(review@.servers, redacted_texts(redacted@)),
            quoted_text(paths::lossy_text(review.project_root)),
            shown.hidden,
        ),
{
    let ghost servers = review@.servers;
    let ghost texts = redacted_texts(redacted@);
    let mut hidden = false;
    let mut displays: Vec<ServerDisplay> = Vec::new();
    let mut i: usize = 0;
    while i < review.servers.len()
        invariant
            i == displays.len(),
            i <= review.servers.len(),
            redacted.len() == review.servers.len(),
            servers == review@.servers,
            texts == redacted_texts(redacted@),
            forall|j: int|
                0 <= j < i ==> (#[trigger] displays[j])@ == server_texts(servers[j], texts[j]),
            hidden == exists|j: int| 0 <= j < i && hides(#[trigger] servers[j], texts[j]),
        decreases review.servers.len() - i,
    {
        let server = &review.servers[i];
        assert(servers[i as int] == server@);
        displays.push(display_server(server, &redacted[i]));
        let now_hidden = redaction_hides(server, &redacted[i]);
        hidden = hidden || now_hidden;
        i += 1;
    }
    assert(display_views(displays@) =~= all_texts(servers, texts));
    let project = quoted_terminal_text(project_key(&review.project_root).as_str());
    let lines = review_text(&displays, project.as_str(), hidden);
    ShownReview { lines, hidden }
}

} // verus!
