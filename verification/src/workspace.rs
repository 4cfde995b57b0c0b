//! Identifying the workspace from what git reports.

use crate::error;
use crate::error::Error;
use crate::model;
use crate::text;
use crate::text::{concat2, is_blank, trim};
use vstd::prelude::*;
use vstd::string::*;

verus! {

/// What a run of git reported: whether it succeeded, and its output if that is
/// text.
#[derive(Debug)]
pub struct GitOutput {
    pub success: bool,
    pub stdout: Option<String>,
}

/// The value that a run of git gives: its output without surrounding white space,
/// if it ran, succeeded, and wrote any.
pub open spec fn git_value(output: Option<GitOutput>) -> Option<Seq<char>> {
    match output {
        Some(o) => match o.stdout {
            Some(out) => if o.success && !text::blank(out@) {
                Some(text::trimmed(out@))
            } else {
                None
            },
            None => None,
        },
        None => None,
    }
}

/// The value that a run of git gives.
pub fn git_output(output: &Option<GitOutput>) -> (r: Option<String>)
    ensures
        model::text_of(r) == git_value(*output),
{
    match output {
        Some(o) => {
            if !o.success {
                return None;
            }
            match &o.stdout {
                Some(out) => {
                    if is_blank(out.as_str()) {
                        None
                    } else {
                        Some(trim(out.as_str()))
                    }
                },
                None => None,
            }
        },
        None => None,
    }
}

/// The root of the repository, from what git reports as its top level.
pub fn repo_root(toplevel: &Option<GitOutput>) -> (r: Option<String>)
    ensures
        model::text_of(r) == git_value(*toplevel),
{
    git_output(toplevel)
}

/// The workspace that is detected: the branch, else the commit, else a default.
pub open spec fn detected(branch: Option<Seq<char>>, commit: Option<Seq<char>>) -> Seq<char> {
    match (branch, commit) {
        (Some(branch), _) => "branch:"@ + branch,
        (None, Some(commit)) => "detached:"@ + commit,
        (None, None) => "default"@,
    }
}

/// The workspace: the given one, or else the one that is detected.
pub open spec fn workspace_outcome(
    given: Option<Seq<char>>,
    branch: Option<Seq<char>>,
    commit: Option<Seq<char>>,
) -> Result<Seq<char>, Seq<char>> {
    match given {
        Some(workspace) => if text::blank(workspace) {
            Err("workspace identifier cannot be empty"@)
        } else {
            Ok(text::trimmed(workspace))
        },
        None => Ok(detected(branch, commit)),
    }
}

/// The text of an optional string slice.
pub open spec fn str_of(o: Option<&str>) -> Option<Seq<char>> {
    match o {
        Some(s) => Some(s@),
        None => None,
    }
}

/// Detects the workspace from what git reports of the branch and the commit.
pub fn detect_workspace(branch: &Option<GitOutput>, commit: &Option<GitOutput>) -> (r: String)
    ensures
        r@ == detected(git_value(*branch), git_value(*commit)),
{
    if let Some(name) = git_output(branch) {
        return concat2("branch:", name.as_str());
    }
    if let Some(hash) = git_output(commit) {
        return concat2("detached:", hash.as_str());
    }
    "default".to_owned()
}

/// The identifier of the workspace: the given one, or else the one that is detected
/// from what git reports of the branch and the commit.
pub fn workspace_id(
    override_id: Option<&str>,
    branch: &Option<GitOutput>,
    commit: &Option<GitOutput>,
) -> (r: Result<String, Error>)
    ensures
        error::outcome(r) == workspace_outcome(
            str_of(override_id),
            git_value(*branch),
            git_value(*commit),
        ),
{
    if let Some(value) = override_id {
        if is_blank(value) {
            return Err(Error::new("workspace identifier cannot be empty"));
        }
        return Ok(trim(value));
    }
    Ok(detect_workspace(branch, commit))
}

} // verus!
