//! Project directories: the canonical root of a project, and the key that stands for it.
use std::path::PathBuf;
use vstd::prelude::*;
use vstd::string::StringExecFns;

verus! {

/// `std::path::PathBuf`, carried as it is.
#[verifier::external_type_specification]
#[verifier::external_body]
pub struct ExPathBuf(PathBuf);

/// `PathBuf::clone` gives the same path.
pub assume_specification[ <PathBuf as Clone>::clone ](original: &PathBuf) -> (copy: PathBuf)
    ensures
        copy == *original,
;

/// The text of a path, with U+FFFD in place of what is not Unicode.
pub uninterp spec fn lossy_text(path: PathBuf) -> Seq<char>;

/// Calls `Path::to_string_lossy`. The text depends on the path alone; how what is not Unicode is
/// replaced is left unsaid.
#[verifier::external_body]
fn path_text(path: &PathBuf) -> (text: String)
    ensures
        text@ == lossy_text(*path),
{
    path.to_string_lossy().into_owned()
}

/// The key under which the trust store keeps a project.
pub fn project_key(project_root: &PathBuf) -> (key: String)
    ensures
        key@ == lossy_text(*project_root),
{
    path_text(project_root)
}

/// The path of an entry of a directory.
pub uninterp spec fn joined_path(directory: PathBuf, name: Seq<char>) -> PathBuf;

/// Calls `Path::join`. The path depends on the directory and the name alone; how the platform
/// separates the two is left unsaid.
#[verifier::external_body]
pub(crate) fn join_path(directory: &PathBuf, name: &str) -> (path: PathBuf)
    ensures
        path == joined_path(*directory, name@),
{
    directory.join(name)
}

/// What came of resolving a project directory.
pub enum ResolvedPath {
    /// The path could not be resolved.
    Failed,
    /// The canonical path, and whether it is a directory.
    Found { path: PathBuf, directory: bool },
}

/// Why a project has no root.
#[derive(Debug, PartialEq, Eq)]
pub enum ProjectRootError {
    /// The project directory could not be resolved.
    Unresolved,
    /// The path of the project leads to something else than a directory.
    NotADirectory(PathBuf),
}

/// What is said of a project without a root, given the path as it is displayed.
pub open spec fn root_error_text(error: ProjectRootError, path: Seq<char>) -> Seq<char> {
    match error {
        ProjectRootError::Unresolved => "failed to resolve project directory "@ + path,
        ProjectRootError::NotADirectory(_) => "project path is not a directory: "@ + path,
    }
}

impl ProjectRootError {
    /// What is said, given the path as it is displayed: the one that could not be resolved, or the
    /// canonical one that is no directory.
    pub fn message(&self, path: &str) -> (message: String)
        ensures
            message@ == root_error_text(*self, path@),
    {
        let mut message = match self {
            ProjectRootError::Unresolved => "failed to resolve project directory ".to_owned(),
            ProjectRootError::NotADirectory(_) => "project path is not a directory: ".to_owned(),
        };
        message.append(path);
        message
    }
}

/// The root of a project, given what came of resolving its directory.
pub open spec fn project_root(resolved: ResolvedPath) -> Result<PathBuf, ProjectRootError> {
    match resolved {
        ResolvedPath::Failed => Err(ProjectRootError::Unresolved),
        ResolvedPath::Found { path, directory: true } => Ok(path),
        ResolvedPath::Found { path, directory: false } => Err(ProjectRootError::NotADirectory(path)),
    }
}

/// The root of a project is its canonical path, where that is a directory.
pub fn canonical_project_root(resolved: ResolvedPath) -> (root: Result<PathBuf, ProjectRootError>)
    ensures
        root == project_root(resolved),
{
    match resolved {
        ResolvedPath::Failed => Err(ProjectRootError::Unresolved),
        ResolvedPath::Found { path, directory } => if directory {
            Ok(path)
        } else {
            Err(ProjectRootError::NotADirectory(path))
        },
    }
}

} // verus!
