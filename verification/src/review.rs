//! What a project asks to be trusted with: the local commands that its configuration defines.
use crate::config;
use crate::config::{stable_map, McpConfig, ServerView};
use crate::fingerprint;
use crate::maps;
use crate::maps::OrderedMap;
use crate::paths;
use crate::paths::{canonical_project_root, ProjectRootError, ResolvedPath};
use std::path::PathBuf;
use vstd::prelude::*;

verus! {

/// One local command of a project, as it is shown for approval.
#[derive(PartialEq, Eq)]
pub struct ProjectMcpServerReview {
    pub name: String,
    pub command: String,
    pub args: Vec<String>,
    pub env: OrderedMap<String>,
}

/// One local command of a project.
#[verifier::ext_equal]
pub struct ServerReview {
    pub name: Seq<char>,
    pub command: Seq<char>,
    pub args: Seq<Seq<char>>,
    pub env: Map<Seq<char>, Seq<char>>,
}

impl View for ProjectMcpServerReview {
    type V = ServerReview;

    open spec fn view(&self) -> ServerReview {
        ServerReview {
            name: self.name@,
            command: self.command@,
            args: config::text_views(self.args@),
            env: self.env@,
        }
    }
}

impl Clone for ProjectMcpServerReview {
    fn clone(&self) -> (copy: Self)
        ensures
            copy@ == self@,
    {
        let copy = ProjectMcpServerReview {
            name: self.name.clone(),
            command: self.command.clone(),
            args: self.args.clone(),
            env: self.env.clone(),
        };
        assert(copy@ =~= self@);
        copy
    }
}

/// The local commands of a project, and the fingerprint of the configuration that defines them.
#[derive(PartialEq, Eq)]
pub struct ProjectMcpReview {
    pub project_root: PathBuf,
    pub fingerprint: String,
    pub servers: Vec<ProjectMcpServerReview>,
}

/// The local commands of a project, and the fingerprint of the configuration that defines them.
#[verifier::ext_equal]
pub struct ProjectReview {
    pub project_root: PathBuf,
    pub fingerprint: Seq<char>,
    pub servers: Seq<ServerReview>,
}

impl View for ProjectMcpReview {
    type V = ProjectReview;

    open spec fn view(&self) -> ProjectReview {
        ProjectReview {
            project_root: self.project_root,
            fingerprint: self.fingerprint@,
            servers: self.servers@.map_values(|server: ProjectMcpServerReview| server@),
        }
    }
}

impl Clone for ProjectMcpReview {
    fn clone(&self) -> (copy: Self)
        ensures
            copy@ == self@,
    {
        let mut servers: Vec<ProjectMcpServerReview> = Vec::new();
        let mut i: usize = 0;
        while i < self.servers.len()
            invariant
                i == servers.len(),
                i <= self.servers.len(),
                forall|j: int| 0 <= j < i ==> (#[trigger] servers[j])@ == self.servers[j]@,
            decreases self.servers.len() - i,
        {
            servers.push(self.servers[i].clone());
            i += 1;
        }
        let copy = ProjectMcpReview {
            project_root: self.project_root.clone(),
            fingerprint: self.fingerprint.clone(),
            servers,
        };
        assert(copy@ =~= self@);
        copy
    }
}

/// Turns the value of an entry into the review of the server.
pub open spec fn as_review() -> spec_fn(Seq<char>, ServerView) -> ServerReview {
    |name: Seq<char>, server: ServerView|
        ServerReview {
            name,
            command: server.content.command,
            args: server.content.args,
            env: server.content.env,
        }
}

/// The reviews of servers in ascending order of their names.
pub open spec fn server_reviews(servers: Map<Seq<char>, ServerView>) -> Seq<ServerReview> {
    maps::listing(servers).map_values(
        |pair: (Seq<char>, ServerView)| as_review()(pair.0, pair.1),
    )
}

/// What reviewing a configuration gives: nothing where it defines no server, else the error that
/// left the project without a root, else the review.
pub open spec fn config_review(
    resolved: ResolvedPath,
    servers: Map<Seq<char>, ServerView>,
) -> Result<Option<ProjectReview>, ProjectRootError> {
    if servers.is_empty() {
        Ok(None)
    } else {
        match paths::project_root(resolved) {
            Ok(project_root) => Ok(
                Some(
                    ProjectReview {
                        project_root,
                        fingerprint: fingerprint::fingerprint_text(servers),
                        servers: server_reviews(servers),
                    },
                ),
            ),
            Err(error) => Err(error),
        }
    }
}

/// The result of a review, with the review taken by its view.
pub open spec fn outcome(
    result: Result<Option<ProjectMcpReview>, ProjectRootError>,
) -> Result<Option<ProjectReview>, ProjectRootError> {
    match result {
        Ok(Some(review)) => Ok(Some(review@)),
        Ok(None) => Ok(None),
        Err(error) => Err(error),
    }
}

/// Reviews the servers of a configuration, in ascending order of their names.
pub fn review_servers(config: &McpConfig) -> (servers: Vec<ProjectMcpServerReview>)
    ensures
        servers@.map_values(|server: ProjectMcpServerReview| server@) == server_reviews(config@),
{
    let ghost pairs = config.servers.pairs();
    let mut reviews: OrderedMap<ProjectMcpServerReview> = OrderedMap::new();
    let count = config.servers.len();
    let mut i: usize = 0;
    assert(maps::changed_pairs(pairs.take(0), as_review()) =~= seq![]);
    while i < count
        invariant
            i <= count,
            count == pairs.len(),
            pairs == config.servers.pairs(),
            reviews@ == maps::collected(maps::changed_pairs(pairs.take(i as int), as_review())),
        decreases count - i,
    {
        let name = config.servers.key_at(i);
        let server = config.servers.value_at(i);
        let review = ProjectMcpServerReview {
            name: name.clone(),
            command: server.command.clone(),
            args: server.args.clone(),
            env: stable_map(&server.env),
        };
        assert(review@ =~= as_review()(pairs[i as int].0, pairs[i as int].1));
        reviews.insert(name.clone(), review);
        assert(maps::changed_pairs(pairs.take(i + 1), as_review()).drop_last()
            =~= maps::changed_pairs(pairs.take(i as int), as_review()));
        i += 1;
    }
    proof {
        assert(pairs.take(count as int) =~= pairs);
        maps::lemma_changed_collected(pairs, as_review());
        maps::lemma_listed(pairs);
        maps::lemma_changed_listing(config@, as_review());
    }
    let servers = reviews.into_values();
    assert(servers@.map_values(|server: ProjectMcpServerReview| server@) =~= server_reviews(
        config@,
    ));
    servers
}

/// Reviews a configuration: which servers it defines, and what its fingerprint is.
pub fn review_project_config(resolved: ResolvedPath, config: &McpConfig) -> (result: Result<
    Option<ProjectMcpReview>,
    ProjectRootError,
>)
    ensures
        outcome(result) == config_review(resolved, config@),
        result matches Ok(Some(review)) ==> fingerprint::is_fingerprint(review.fingerprint@),
{
    if config.servers.is_empty() {
        return Ok(None);
    }
    match canonical_project_root(resolved) {
        Ok(project_root) => {
            let servers = review_servers(config);
            let fingerprint = fingerprint::fingerprint(config);
            Ok(Some(ProjectMcpReview { project_root, fingerprint, servers }))
        },
        Err(error) => Err(error),
    }
}

/// Reviews the local commands of a project, given its configuration with the references to the
/// environment expanded. Expanding may turn a server into one that is no local command, so such
/// servers are dropped here, as they are before expanding.
pub fn project_mcp_review(resolved: ResolvedPath, expanded: McpConfig) -> (result: Result<
    Option<ProjectMcpReview>,
    ProjectRootError,
>)
    ensures
        outcome(result) == config_review(resolved, config::stdio_only(expanded@)),
        result matches Ok(Some(review)) ==> fingerprint::is_fingerprint(review.fingerprint@),
{
    let mut config = expanded;
    config.retain_stdio();
    review_project_config(resolved, &config)
}

} // verus!
