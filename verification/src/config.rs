//! The MCP servers that a configuration defines.
use crate::maps::{OrderedMap, UnorderedMap};
use vstd::prelude::*;

verus! {

/// One MCP server as a configuration defines it.
#[derive(Debug)]
pub struct McpServerConfig {
    pub command: String,
    pub args: Vec<String>,
    pub env: UnorderedMap<String>,
    pub shared: bool,
    pub transport: Option<String>,
    pub url: Option<String>,
    pub headers: UnorderedMap<String>,
    pub enabled: Option<bool>,
    pub disabled: Option<bool>,
    pub timeout_secs: Option<u64>,
    /// Whether the server is a local command that is spoken to over its standard streams.
    pub stdio: bool,
}

/// Everything about a server that a trust decision covers.
#[verifier::ext_equal]
pub struct ServerContent {
    pub command: Seq<char>,
    pub args: Seq<Seq<char>>,
    pub env: Map<Seq<char>, Seq<char>>,
    pub shared: bool,
    pub transport: Option<Seq<char>>,
    pub url: Option<Seq<char>>,
    pub headers: Map<Seq<char>, Seq<char>>,
    pub enabled: Option<bool>,
    pub disabled: Option<bool>,
    pub timeout_secs: Option<u64>,
}

/// A server: what a trust decision covers, and whether it is a local command.
#[verifier::ext_equal]
pub struct ServerView {
    pub content: ServerContent,
    pub stdio: bool,
}

/// Texts as sequences of characters.
pub open spec fn text_views(texts: Seq<String>) -> Seq<Seq<char>> {
    texts.map_values(|item: String| item@)
}

/// An optional text as a sequence of characters.
pub open spec fn optional_text(value: Option<String>) -> Option<Seq<char>> {
    match value {
        Some(value) => Some(value@),
        None => None,
    }
}

impl View for McpServerConfig {
    type V = ServerView;

    open spec fn view(&self) -> ServerView {
        ServerView {
            content: ServerContent {
                command: self.command@,
                args: text_views(self.args@),
                env: self.env@,
                shared: self.shared,
                transport: optional_text(self.transport),
                url: optional_text(self.url),
                headers: self.headers@,
                enabled: self.enabled,
                disabled: self.disabled,
                timeout_secs: self.timeout_secs,
            },
            stdio: self.stdio,
        }
    }
}

impl McpServerConfig {
    /// Whether the server is a local command that is spoken to over its standard streams.
    pub fn is_stdio(&self) -> (stdio: bool)
        ensures
            stdio == self@.stdio,
    {
        self.stdio
    }
}

/// A configuration: MCP servers by name.
#[derive(Debug)]
pub struct McpConfig {
    pub servers: UnorderedMap<McpServerConfig>,
}

impl View for McpConfig {
    type V = Map<Seq<char>, ServerView>;

    open spec fn view(&self) -> Map<Seq<char>, ServerView> {
        self.servers@
    }
}

/// The servers that are local commands.
pub open spec fn stdio_only(servers: Map<Seq<char>, ServerView>) -> Map<Seq<char>, ServerView> {
    Map::new(
        |name: Seq<char>| servers.contains_key(name) && servers[name].stdio,
        |name: Seq<char>| servers[name],
    )
}

impl McpConfig {
    /// Drops the servers that are no local commands.
    pub fn retain_stdio(&mut self)
        ensures
            final(self)@ == stdio_only(old(self)@),
    {
        let ghost all = self@;
        let mut kept: UnorderedMap<McpServerConfig> = UnorderedMap::new();
        while !self.servers.is_empty()
            invariant
                forall|name: Seq<char>| #[trigger]
                    self@.contains_key(name) ==> all.contains_key(name) && all[name] == self@[name],
                forall|name: Seq<char>| #[trigger]
                    kept@.contains_key(name) <==> stdio_only(all).contains_key(name)
                        && !self@.contains_key(name),
                forall|name: Seq<char>| #[trigger]
                    kept@.contains_key(name) ==> kept@[name] == all[name],
            decreases self.servers.pairs().len(),
        {
            let ghost left = self@;
            if let Some((name, server)) = self.servers.pop() {
                assert(self@ == left.remove(name@));
                assert(left.contains_key(name@) && left[name@] == server@);
                if server.is_stdio() {
                    kept.insert(name, server);
                }
            }
        }
        assert(kept@ =~= stdio_only(all));
        self.servers = kept;
    }
}

/// Copies a map into ascending order of its keys, which does not depend on the order in which
/// the entries are met.
pub fn stable_map(map: &UnorderedMap<String>) -> (stable: OrderedMap<String>)
    ensures
        stable@ == map@,
{
    let mut stable: OrderedMap<String> = OrderedMap::new();
    let count = map.len();
    let mut i: usize = 0;
    while i < count
        invariant
            i <= count,
            count == map.pairs().len(),
            stable@ == crate::maps::collected(map.pairs().take(i as int)),
        decreases count - i,
    {
        stable.insert(map.key_at(i).clone(), map.value_at(i).clone());
        assert(map.pairs().take(i + 1).drop_last() =~= map.pairs().take(i as int));
        i += 1;
    }
    assert(map.pairs().take(count as int) =~= map.pairs());
    stable
}

} // verus!
