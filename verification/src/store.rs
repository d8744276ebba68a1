//! The trust store: which configuration of which project has been approved.
use crate::maps::OrderedMap;
use crate::paths;
use crate::paths::{
    canonical_project_root, join_path, project_key, ProjectRootError, ResolvedPath,
};
use crate::review::ProjectMcpReview;
use crate::text;
use crate::text::decimal_text;
use std::path::PathBuf;
use vstd::prelude::*;
use vstd::string::StringExecFns;

verus! {

/// The version of the trust store that is read and written.
pub const TRUST_STORE_VERSION: u32 = 1;

/// The name of the file that holds the trust store.
pub const TRUST_STORE_FILE: &'static str = "mcp-project-trust.json";

/// Where the trust store is kept, given the directory of lasting state.
pub fn trust_store_path(state_directory: &PathBuf) -> (path: PathBuf)
    ensures
        path == paths::joined_path(*state_directory, TRUST_STORE_FILE@),
{
    join_path(state_directory, TRUST_STORE_FILE)
}

/// The fingerprints of the approved configurations, by the keys of their projects.
#[derive(PartialEq, Eq)]
pub struct ProjectMcpTrustStore {
    pub version: u32,
    pub projects: OrderedMap<String>,
}

impl Default for ProjectMcpTrustStore {
    /// A store without approvals.
    fn default() -> (store: Self)
        ensures
            store.version == TRUST_STORE_VERSION,
            store.projects@ == Map::<Seq<char>, Seq<char>>::empty(),
    {
        ProjectMcpTrustStore { version: TRUST_STORE_VERSION, projects: OrderedMap::new() }
    }
}

/// What came of reading the file that holds the trust store.
pub enum StoredTrust {
    /// There is no such file.
    Missing,
    /// The store that the file holds.
    Read(ProjectMcpTrustStore),
    /// The file could not be read as a store.
    Unreadable,
}

/// Why a file that exists was not used.
#[derive(Debug, Clone, Copy, PartialEq, Eq)]
pub enum StoreWarning {
    /// The file has this version.
    UnsupportedVersion(u32),
    /// The file could not be read.
    Unreadable,
}

/// The warning that a stored file calls for.
pub open spec fn warning_for(stored: StoredTrust) -> Option<StoreWarning> {
    match stored {
        StoredTrust::Missing => None,
        StoredTrust::Read(store) => if store.version == TRUST_STORE_VERSION {
            None
        } else {
            Some(StoreWarning::UnsupportedVersion(store.version))
        },
        StoredTrust::Unreadable => Some(StoreWarning::Unreadable),
    }
}

/// What is logged of a warning, given the path of the file and what went wrong with reading it.
pub open spec fn warning_text(
    warning: StoreWarning,
    path: Seq<char>,
    error: Seq<char>,
) -> Seq<char> {
    match warning {
        StoreWarning::UnsupportedVersion(version) => "MCP trust store version "@ + text::decimal(
            version as nat,
        ) + " is unsupported; project-local MCP remains blocked"@,
        StoreWarning::Unreadable => "Failed to read MCP trust store "@ + path
            + "; project-local MCP remains blocked: "@ + error,
    }
}

impl StoreWarning {
    /// What is logged, given the path of the file and what went wrong with reading it.
    pub fn message(self, path: &str, error: &str) -> (message: String)
        ensures
            message@ == warning_text(self, path@, error@),
    {
        match self {
            StoreWarning::UnsupportedVersion(version) => {
                let mut message = "MCP trust store version ".to_owned();
                message.append(decimal_text(version as usize).as_str());
                message.append(" is unsupported; project-local MCP remains blocked");
                message
            },
            StoreWarning::Unreadable => {
                let mut message = "Failed to read MCP trust store ".to_owned();
                message.append(path);
                message.append("; project-local MCP remains blocked: ");
                message.append(error);
                message
            },
        }
    }
}

/// The approvals that a stored file gives. One that cannot be used gives none.
pub open spec fn approvals(stored: StoredTrust) -> Map<Seq<char>, Seq<char>> {
    match stored {
        StoredTrust::Read(store) => if store.version == TRUST_STORE_VERSION {
            store.projects@
        } else {
            Map::empty()
        },
        _ => Map::empty(),
    }
}

/// The store that a file gives, with a warning where the file exists and cannot be used: then
/// nothing is trusted.
pub fn load_store(stored: StoredTrust) -> (loaded: (ProjectMcpTrustStore, Option<StoreWarning>))
    ensures
        loaded.0.version == TRUST_STORE_VERSION,
        loaded.0.projects@ == approvals(stored),
        loaded.1 == warning_for(stored),
{
    match stored {
        StoredTrust::Missing => (ProjectMcpTrustStore::default(), None),
        StoredTrust::Read(store) => {
            if store.version == TRUST_STORE_VERSION {
                (store, None)
            } else {
                let warning = StoreWarning::UnsupportedVersion(store.version);
                (ProjectMcpTrustStore::default(), Some(warning))
            }
        },
        StoredTrust::Unreadable => (
            ProjectMcpTrustStore::default(),
            Some(StoreWarning::Unreadable),
        ),
    }
}

/// Whether exactly this fingerprint has been approved under a key.
pub open spec fn is_approved(
    projects: Map<Seq<char>, Seq<char>>,
    key: Seq<char>,
    fingerprint: Seq<char>,
) -> bool {
    projects.contains_key(key) && projects[key] == fingerprint
}

impl ProjectMcpTrustStore {
    /// Whether exactly this fingerprint has been approved under a key.
    pub fn approves(&self, key: &str, fingerprint: &String) -> (approved: bool)
        ensures
            approved == is_approved(self.projects@, key@, fingerprint@),
    {
        match self.projects.get(key) {
            Some(approved) => *approved == *fingerprint,
            None => false,
        }
    }

    /// Approves a fingerprint under a key, in place of what was approved there before.
    pub fn approve(&mut self, key: String, fingerprint: String)
        ensures
            final(self).version == old(self).version,
            final(self).projects@ == old(self).projects@.insert(key@, fingerprint@),
    {
        self.projects.insert(key, fingerprint);
    }

    /// Takes back the approval under a key, and says whether there was one.
    pub fn withdraw(&mut self, key: &str) -> (withdrawn: bool)
        ensures
            withdrawn == old(self).projects@.contains_key(key@),
            final(self).version == old(self).version,
            final(self).projects@ == old(self).projects@.remove(key@),
    {
        self.projects.remove(key)
    }
}

/// Whether a store approves exactly the configuration that was reviewed.
pub fn project_mcp_is_trusted(review: &ProjectMcpReview, store: &ProjectMcpTrustStore) -> (trusted:
    bool)
    ensures
        trusted == is_approved(
            store.projects@,
            paths::lossy_text(review.project_root),
            review.fingerprint@,
        ),
{
    store.approves(project_key(&review.project_root).as_str(), &review.fingerprint)
}

/// Approves exactly the configuration that was reviewed.
pub fn trust_project_mcp(review: &ProjectMcpReview, store: &mut ProjectMcpTrustStore)
    ensures
        final(store).version == old(store).version,
        final(store).projects@ == old(store).projects@.insert(
            paths::lossy_text(review.project_root),
            review.fingerprint@,
        ),
{
    store.approve(project_key(&review.project_root), review.fingerprint.clone());
}

/// Takes back the approval of a project, and says whether there was one. A project without a
/// root has none to take back.
pub fn revoke_project_mcp(resolved: ResolvedPath, store: &mut ProjectMcpTrustStore) -> (removed:
    Result<bool, ProjectRootError>)
    ensures
        final(store).version == old(store).version,
        match paths::project_root(resolved) {
            Ok(root) => {
                &&& removed == Ok::<bool, ProjectRootError>(
                    old(store).projects@.contains_key(paths::lossy_text(root)),
                )
                &&& final(store).projects@ == old(store).projects@.remove(paths::lossy_text(root))
            },
            Err(error) => {
                &&& removed == Err::<bool, ProjectRootError>(error)
                &&& final(store).projects@ == old(store).projects@
            },
        },
{
    match canonical_project_root(resolved) {
        Ok(root) => Ok(store.withdraw(project_key(&root).as_str())),
        Err(error) => Err(error),
    }
}

} // verus!
