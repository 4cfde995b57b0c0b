//! The project that a command runs in.

use crate::error;
use crate::error::Error;
use crate::model;
use crate::workspace;
use crate::workspace::{repo_root, workspace_id, GitOutput};
use vstd::prelude::*;
use vstd::string::*;

verus! {

/// The workspace, and the root of the repository if there is one.
#[derive(Debug, Clone)]
pub struct ProjectContext {
    pub workspace_id: String,
    pub root: Option<String>,
}

/// Model of the context of a project.
#[verifier::ext_equal]
pub struct ContextView {
    pub workspace_id: Seq<char>,
    pub root: Option<Seq<char>>,
}

impl View for ProjectContext {
    type V = ContextView;

    open spec fn view(&self) -> ContextView {
        ContextView { workspace_id: self.workspace_id@, root: model::text_of(self.root) }
    }
}

impl ProjectContext {
    /// The context of a project, from what git reports of the top level, the branch
    /// and the commit. A given workspace takes the place of the detected one.
    pub fn detect(
        workspace_override: Option<&str>,
        toplevel: &Option<GitOutput>,
        branch: &Option<GitOutput>,
        commit: &Option<GitOutput>,
    ) -> (r: Result<ProjectContext, Error>)
        ensures
            error::outcome(r) == (match workspace::workspace_outcome(
                workspace::str_of(workspace_override),
                workspace::git_value(*branch),
                workspace::git_value(*commit),
            ) {
                Ok(workspace_id) => Ok::<ContextView, Seq<char>>(
                    ContextView { workspace_id, root: workspace::git_value(*toplevel) },
                ),
                Err(message) => Err(message),
            }),
    {
        let root: Option<String> = repo_root(toplevel);
        let workspace_id: String = workspace_id(workspace_override, branch, commit)?;
        Ok(ProjectContext { workspace_id, root })
    }
}

} // verus!
