//! Commands for containers that exist already.

use vstd::prelude::*;

use crate::digest;
use crate::error::{AmError, AmErrorModel};
use crate::text;

verus! {

/// The arguments that run a shell snippet inside a running container.
pub fn exec_script(container_name: &str, script: &str) -> (r: Vec<String>)
    ensures
        r.deep_view() == seq!["exec"@, container_name@, "sh"@, "-c"@, script@],
{
    let mut v: Vec<String> = Vec::new();
    text::push_str(&mut v, "exec");
    text::push_str(&mut v, container_name);
    text::push_str(&mut v, "sh");
    text::push_str(&mut v, "-c");
    text::push_str(&mut v, script);
    assert(v.deep_view() =~= seq!["exec"@, container_name@, "sh"@, "-c"@, script@]);
    v
}

/// The arguments that stop a container.
pub fn stop_container(container_name: &str) -> (r: Vec<String>)
    ensures
        r.deep_view() == seq!["stop"@, container_name@],
{
    let mut v: Vec<String> = Vec::new();
    text::push_str(&mut v, "stop");
    text::push_str(&mut v, container_name);
    assert(v.deep_view() =~= seq!["stop"@, container_name@]);
    v
}

/// The arguments that remove a container, running or not.
pub fn remove_container(container_name: &str) -> (r: Vec<String>)
    ensures
        r.deep_view() == seq!["rm"@, "-f"@, container_name@],
{
    let mut v: Vec<String> = Vec::new();
    text::push_str(&mut v, "rm");
    text::push_str(&mut v, "-f");
    text::push_str(&mut v, container_name);
    assert(v.deep_view() =~= seq!["rm"@, "-f"@, container_name@]);
    v
}

/// The error for a container command that failed: what it wrote, or its status where it wrote nothing.
pub fn command_failure(stderr: &str, status: &str) -> (r: AmError)
    ensures
        r.deep_view() == AmErrorModel::ContainerError(
            if text::trimmed(stderr@).len() == 0 {
                "container command exited with status "@ + status@
            } else {
                text::trimmed(stderr@)
            },
        ),
{
    let t = text::trim(stderr);
    if t.is_empty() {
        AmError::ContainerError(text::cat2("container command exited with status ", status))
    } else {
        AmError::ContainerError(t.to_owned())
    }
}

/// The arguments that tell whether a container is there.
pub fn inspect_container(container_name: &str) -> (r: Vec<String>)
    ensures
        r.deep_view() == seq!["container"@, "inspect"@, container_name@],
{
    let mut v: Vec<String> = Vec::new();
    text::push_str(&mut v, "container");
    text::push_str(&mut v, "inspect");
    text::push_str(&mut v, container_name);
    assert(v.deep_view() =~= seq!["container"@, "inspect"@, container_name@]);
    v
}

/// What is said where a container was left over and has been removed.
pub fn removed_note(container_name: &str) -> (r: String)
    ensures
        r@ == "removed existing container '"@ + container_name@ + "' from a previous unclean run"@,
{
    text::cat3("removed existing container '", container_name, "' from a previous unclean run")
}

/// The value that `git config` printed, where it found one.
pub open spec fn config_value(success: bool, stdout: Seq<u8>) -> Option<Seq<char>> {
    match digest::utf8_of(Some(stdout)) {
        Some(t) if success && text::trimmed(t).len() > 0 => Some(text::trimmed(t)),
        _ => None,
    }
}

/// Reads the value that `git config` printed.
pub fn read_gitconfig_value(success: bool, stdout: Vec<u8>) -> (r: Option<String>)
    ensures
        r.deep_view() == config_value(success, stdout@),
{
    if !success {
        return None;
    }
    match digest::utf8_text(stdout) {
        Some(t) => {
            let trimmed = text::trim(t.as_str());
            if trimmed.is_empty() {
                None
            } else {
                Some(trimmed.to_owned())
            }
        },
        None => None,
    }
}

/// What `gh auth token` did.
#[derive(Debug, PartialEq)]
pub enum GhOutput {
    /// It could not be run.
    Missing,
    /// It failed, and wrote this to its error stream.
    Failed(Vec<u8>),
    /// It printed this.
    Printed(Vec<u8>),
}

/// The token that `gh auth token` printed.
pub open spec fn gh_token_of(output: GhOutput) -> Result<Seq<char>, AmErrorModel> {
    match output {
        GhOutput::Missing => Err(
            AmErrorModel::ContainerError("failed to execute 'gh auth token' — is GitHub CLI installed?"@),
        ),
        GhOutput::Failed(stderr) => Err(
            AmErrorModel::ContainerError(
                "retrieving GitHub authentication token for Copilot: GitHub CLI authentication failed — run 'gh auth login' to authenticate\nError: "@
                    + text::trimmed(digest::lossy(stderr@)),
            ),
        ),
        GhOutput::Printed(stdout) => Ok(text::trimmed(digest::lossy(stdout@))),
    }
}

/// Reads the token that `gh auth token` printed.
pub fn get_gh_token(output: &GhOutput) -> (r: Result<String, AmError>)
    ensures
        crate::error::outcome(r) == gh_token_of(*output),
{
    match output {
        GhOutput::Missing => Err(
            AmError::ContainerError("failed to execute 'gh auth token' — is GitHub CLI installed?".to_owned()),
        ),
        GhOutput::Failed(stderr) => {
            let t = digest::text_of_bytes(stderr);
            Err(
                AmError::ContainerError(
                    text::cat2(
                        "retrieving GitHub authentication token for Copilot: GitHub CLI authentication failed — run 'gh auth login' to authenticate\nError: ",
                        text::trim(t.as_str()),
                    ),
                ),
            )
        },
        GhOutput::Printed(stdout) => {
            let t = digest::text_of_bytes(stdout);
            Ok(text::trim(t.as_str()).to_owned())
        },
    }
}

/// What a command printed counts without the blanks around it, and only where the command succeeded. The
/// value of a setting must moreover be something.
pub proof fn law_what_was_printed_counts(stdout: Seq<u8>, printed: Vec<u8>, t: Seq<char>)
    requires
        digest::utf8_of(Some(stdout)) == Some(t),
    ensures
        config_value(false, stdout) is None,
        text::trimmed(t).len() > 0 ==> config_value(true, stdout) == Some(text::trimmed(t)),
        text::trimmed(t).len() == 0 ==> config_value(true, stdout) is None,
        gh_token_of(GhOutput::Printed(printed)) == Ok::<Seq<char>, AmErrorModel>(
            text::trimmed(digest::lossy(printed@)),
        ),
        gh_token_of(GhOutput::Missing) is Err,
        gh_token_of(GhOutput::Failed(printed)) is Err,
{
}

} // verus!
