use mcp_project_trust::config::{McpConfig, McpServerConfig};
use mcp_project_trust::maps::UnorderedMap;
use mcp_project_trust::paths::{
    canonical_project_root, project_key, ProjectRootError, ResolvedPath,
};
use mcp_project_trust::review::{project_mcp_review, review_project_config, ProjectMcpReview};
use mcp_project_trust::store::{
    load_store, project_mcp_is_trusted, revoke_project_mcp, trust_project_mcp, trust_store_path,
    ProjectMcpTrustStore, StoreWarning, StoredTrust, TRUST_STORE_FILE, TRUST_STORE_VERSION,
};
use std::path::PathBuf;

const PROJECT: &str = "/work/project";

fn project() -> ResolvedPath {
    ResolvedPath::Found { path: PathBuf::from(PROJECT), directory: true }
}

/// Reads a configuration file. `expand` stands for the variables of the environment.
fn load(file: &str, expand: &[(&str, &str)]) -> McpConfig {
    let parsed: serde_json::Value = serde_json::from_str(file).unwrap();
    let text = |server: &serde_json::Value, field: &str| {
        server[field].as_str().map(|value| {
            let mut value = value.to_string();
            for (name, expanded) in expand {
                value = value.replace(&format!("${{{name}}}"), expanded);
            }
            value
        })
    };
    let mut servers = UnorderedMap::new();
    for (name, server) in parsed["mcpServers"].as_object().unwrap() {
        let transport = text(server, "type");
        let stdio = transport.is_none();
        servers.insert(
            name.clone(),
            McpServerConfig {
                command: text(server, "command").unwrap_or_default(),
                args: vec![],
                env: UnorderedMap::new(),
                shared: true,
                transport,
                url: text(server, "url"),
                headers: UnorderedMap::new(),
                enabled: None,
                disabled: None,
                timeout_secs: None,
                stdio,
            },
        );
    }
    McpConfig { servers }
}

fn review(file: &str, expand: &[(&str, &str)]) -> Option<ProjectMcpReview> {
    let mut loaded = load(file, expand);
    loaded.retain_stdio();
    match project_mcp_review(project(), loaded) {
        Ok(review) => review,
        Err(error) => panic!("{error:?}"),
    }
}

fn stored(entries: &[(&str, &str)]) -> ProjectMcpTrustStore {
    let mut store = ProjectMcpTrustStore::default();
    for (key, fingerprint) in entries {
        store.projects.insert(key.to_string(), fingerprint.to_string());
    }
    store
}

#[test]
fn project_config_requires_exact_executable_trust() {
    let mut store = ProjectMcpTrustStore::default();
    let reviewed = review(
        r#"{"mcpServers":{"repo-tool":{"command":"first-command"}}}"#,
        &[],
    )
    .unwrap();
    assert!(!project_mcp_is_trusted(&reviewed, &store));

    trust_project_mcp(&reviewed, &mut store);
    assert!(project_mcp_is_trusted(&reviewed, &store));
    assert_eq!(reviewed.servers[0].name, "repo-tool");
    assert_eq!(reviewed.servers[0].command, "first-command");

    let changed = review(
        r#"{"mcpServers":{"repo-tool":{"command":"changed-command"}}}"#,
        &[],
    )
    .unwrap();
    assert_ne!(changed.fingerprint, reviewed.fingerprint);
    assert!(!project_mcp_is_trusted(&changed, &store));
}

#[test]
fn expanded_environment_changes_invalidate_trust() {
    let file = r#"{"mcpServers":{"repo-tool":{"command":"${JCODE_MCP_TRUST_TEST_COMMAND}"}}}"#;
    let mut store = ProjectMcpTrustStore::default();
    let reviewed = review(file, &[("JCODE_MCP_TRUST_TEST_COMMAND", "first-command")]).unwrap();
    trust_project_mcp(&reviewed, &mut store);
    assert_eq!(reviewed.servers[0].command, "first-command");
    assert!(project_mcp_is_trusted(&reviewed, &store));

    let changed = review(file, &[("JCODE_MCP_TRUST_TEST_COMMAND", "changed-command")]).unwrap();
    assert_ne!(changed.fingerprint, reviewed.fingerprint);
    assert!(!project_mcp_is_trusted(&changed, &store));
}

#[test]
fn non_stdio_project_entries_do_not_require_trust() {
    let file =
        r#"{"mcpServers":{"remote":{"type":"http","url":"https://example.invalid/mcp"}}}"#;
    assert!(review(file, &[]).is_none());
    let mut loaded = load(file, &[]);
    assert!(!loaded.servers.is_empty());
    loaded.retain_stdio();
    assert!(loaded.servers.is_empty());
}

#[test]
fn revocation_removes_persisted_trust() {
    let mut store = ProjectMcpTrustStore::default();
    let reviewed = review(r#"{"mcpServers":{"repo-tool":{"command":"tool"}}}"#, &[]).unwrap();
    trust_project_mcp(&reviewed, &mut store);

    assert_eq!(revoke_project_mcp(project(), &mut store), Ok(true));
    assert!(!project_mcp_is_trusted(&reviewed, &store));
    assert_eq!(revoke_project_mcp(project(), &mut store), Ok(false));
}

#[test]
fn servers_that_expansion_turns_remote_are_dropped() {
    let mut loaded = load(
        r#"{"mcpServers":{"a":{"command":"x"},"b":{"command":"y"},"c":{"type":"http"}}}"#,
        &[],
    );
    loaded.retain_stdio();
    assert_eq!(loaded.servers.len(), 2);
    let mut expanded = UnorderedMap::new();
    while let Some((name, mut server)) = loaded.servers.pop() {
        server.stdio = name != "a";
        expanded.insert(name, server);
    }
    let reviewed = project_mcp_review(project(), McpConfig { servers: expanded });
    let reviewed = reviewed.ok().unwrap().unwrap();
    assert_eq!(reviewed.servers.len(), 1);
    assert_eq!(reviewed.servers[0].name, "b");
    assert_eq!(reviewed.project_root, PathBuf::from(PROJECT));
}

#[test]
fn remote_servers_have_no_part_in_the_fingerprint_of_a_review() {
    let local = r#"{"mcpServers":{"a":{"command":"x"}}}"#;
    let both = r#"{"mcpServers":{"a":{"command":"x"},"r":{"type":"http","url":"u"}}}"#;
    assert!(review(local, &[]) == review(both, &[]));
}

#[test]
fn a_review_shows_servers_in_order_of_their_names() {
    let mut config = load(
        r#"{"mcpServers":{"zeta":{"command":"z"},"alpha":{"command":"a"},"Beta":{"command":"b"}}}"#,
        &[],
    );
    config.servers.insert(
        "alpha".to_string(),
        McpServerConfig {
            command: "a".to_string(),
            args: vec!["-x".to_string()],
            env: {
                let mut env = UnorderedMap::new();
                env.insert("V2".to_string(), "two".to_string());
                env.insert("V1".to_string(), "one".to_string());
                env
            },
            shared: true,
            transport: None,
            url: None,
            headers: UnorderedMap::new(),
            enabled: None,
            disabled: None,
            timeout_secs: None,
            stdio: true,
        },
    );
    let reviewed = review_project_config(project(), &config).ok().unwrap().unwrap();
    let names: Vec<&str> = reviewed.servers.iter().map(|server| server.name.as_str()).collect();
    assert_eq!(names, vec!["Beta", "alpha", "zeta"]);
    assert_eq!(reviewed.servers[1].args, vec!["-x"]);
    assert_eq!(reviewed.servers[1].env.key_at(0), "V1");
    assert_eq!(reviewed.servers[1].env.value_at(1), "two");
    assert!(reviewed.clone() == reviewed);
}

#[test]
fn a_project_without_a_root_cannot_be_reviewed() {
    let servers = r#"{"mcpServers":{"a":{"command":"x"}}}"#;
    let file = || ResolvedPath::Found { path: PathBuf::from("/work/file"), directory: false };
    assert!(
        project_mcp_review(ResolvedPath::Failed, load(servers, &[])).err()
            == Some(ProjectRootError::Unresolved)
    );
    assert!(
        project_mcp_review(file(), load(servers, &[])).err()
            == Some(ProjectRootError::NotADirectory(PathBuf::from("/work/file")))
    );
    let none = r#"{"mcpServers":{}}"#;
    assert!(project_mcp_review(ResolvedPath::Failed, load(none, &[])) == Ok(None));
    assert!(review_project_config(file(), &load(none, &[])) == Ok(None));
    assert_eq!(canonical_project_root(project()), Ok(PathBuf::from(PROJECT)));
    assert_eq!(canonical_project_root(ResolvedPath::Failed), Err(ProjectRootError::Unresolved));
}

#[test]
fn a_project_without_a_root_has_nothing_to_revoke() {
    let mut store = stored(&[(PROJECT, "f")]);
    assert_eq!(
        revoke_project_mcp(ResolvedPath::Failed, &mut store),
        Err(ProjectRootError::Unresolved)
    );
    let file = ResolvedPath::Found { path: PathBuf::from(PROJECT), directory: false };
    assert_eq!(
        revoke_project_mcp(file, &mut store),
        Err(ProjectRootError::NotADirectory(PathBuf::from(PROJECT)))
    );
    assert!(store.approves(PROJECT, &"f".to_string()));
}

#[test]
fn projects_are_approved_one_by_one() {
    let mut store = stored(&[("/work/other", "f"), ("/work/third", "g")]);
    store.approve(PROJECT.to_string(), "h".to_string());
    store.approve(PROJECT.to_string(), "i".to_string());
    assert!(!store.approves(PROJECT, &"h".to_string()));
    assert!(store.approves(PROJECT, &"i".to_string()));
    assert!(store.approves("/work/other", &"f".to_string()));
    assert!(!store.approves("/work/other", &"g".to_string()));
    assert!(store.withdraw("/work/other"));
    assert!(!store.approves("/work/other", &"f".to_string()));
    assert!(store.approves("/work/third", &"g".to_string()));
    assert!(!store.withdraw("/work/none"));
    assert_eq!(store.version, TRUST_STORE_VERSION);
}

#[test]
fn a_saved_store_is_loaded() {
    let (store, warning) = load_store(StoredTrust::Read(stored(&[(PROJECT, "f")])));
    assert!(store.approves(PROJECT, &"f".to_string()));
    assert_eq!(warning, None);
}

#[test]
fn an_unusable_store_approves_nothing() {
    let mut newer = stored(&[(PROJECT, "f")]);
    newer.version = 2;
    let (store, warning) = load_store(StoredTrust::Read(newer));
    assert!(store == ProjectMcpTrustStore::default());
    assert_eq!(warning, Some(StoreWarning::UnsupportedVersion(2)));
    assert_eq!(
        warning.unwrap().message("/state/file", "ignored"),
        "MCP trust store version 2 is unsupported; project-local MCP remains blocked"
    );

    let (store, warning) = load_store(StoredTrust::Unreadable);
    assert!(store == ProjectMcpTrustStore::default());
    assert_eq!(warning, Some(StoreWarning::Unreadable));
    assert_eq!(
        warning.unwrap().message("/state/file", "expected value at line 1"),
        "Failed to read MCP trust store /state/file; project-local MCP remains blocked: expected value at line 1"
    );

    let (store, warning) = load_store(StoredTrust::Missing);
    assert!(store == ProjectMcpTrustStore::default());
    assert_eq!(warning, None);
    assert_eq!(store.version, 1);
    assert!(store.projects.is_empty());
}

#[test]
fn a_project_is_known_by_the_text_of_its_root() {
    assert_eq!(project_key(&PathBuf::from("/work/\u{e9} x")), "/work/\u{e9} x");
    assert_eq!(
        trust_store_path(&PathBuf::from("/state")),
        PathBuf::from("/state").join("mcp-project-trust.json")
    );
    assert_eq!(TRUST_STORE_FILE, "mcp-project-trust.json");
}

#[test]
fn a_missing_root_is_explained() {
    assert_eq!(
        ProjectRootError::Unresolved.message("/work/gone"),
        "failed to resolve project directory /work/gone"
    );
    assert_eq!(
        ProjectRootError::NotADirectory(PathBuf::from("/work/file")).message("/work/file"),
        "project path is not a directory: /work/file"
    );
}

#[test]
fn a_fingerprint_is_lowercase_hexadecimal() {
    let reviewed = review(r#"{"mcpServers":{"repo-tool":{"command":"tool"}}}"#, &[]).unwrap();
    assert_eq!(reviewed.fingerprint.len(), 64);
    assert!(reviewed
        .fingerprint
        .chars()
        .all(|digit| digit.is_ascii_digit() || ('a'..='f').contains(&digit)));
}

#[test]
fn servers_are_local_commands_before_and_after_expanding() {
    for (before, after, reviewed) in
        [(true, true, true), (true, false, false), (false, true, false), (false, false, false)]
    {
        let mut loaded = load(r#"{"mcpServers":{"a":{"command":"x"}}}"#, &[]);
        let (name, mut server) = loaded.servers.pop().unwrap();
        server.stdio = before;
        loaded.servers.insert(name, server);
        loaded.retain_stdio();
        let mut expanded = UnorderedMap::new();
        while let Some((name, mut server)) = loaded.servers.pop() {
            server.stdio = after;
            expanded.insert(name, server);
        }
        let result = project_mcp_review(project(), McpConfig { servers: expanded });
        assert_eq!(result.ok().unwrap().is_some(), reviewed);
    }
}
