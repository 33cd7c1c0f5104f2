//! What the git commands decide and report.

use vstd::prelude::*;

verus! {

/// The full name of a local branch.
pub open spec fn local_branch(name: Seq<char>) -> Seq<char> {
    "refs/heads/"@ + name
}

/// The full name of a local branch.
pub fn branch_ref(name: &str) -> (r: String)
    ensures
        r@ == local_branch(name@),
{
    let mut out = "refs/heads/".to_owned();
    out.push_str(name);
    out
}

/// What a branch is pushed as: under its own name.
pub fn push_refspec(branch: &str) -> (r: String)
    ensures
        r@ == local_branch(branch@) + ":"@ + local_branch(branch@),
{
    let mut out = branch_ref(branch);
    out.push_str(":");
    out.push_str(branch_ref(branch).as_str());
    out
}

/// The report on a fetch.
pub fn fetched_message(remote: &str) -> (r: String)
    ensures
        r@ == "Fetched from "@ + remote@,
{
    let mut out = "Fetched from ".to_owned();
    out.push_str(remote);
    out
}

/// The report on a push.
pub fn pushed_message(branch: &str, remote: &str) -> (r: String)
    ensures
        r@ == "Pushed "@ + branch@ + " to "@ + remote@,
{
    let mut out = "Pushed ".to_owned();
    out.push_str(branch);
    out.push_str(" to ");
    out.push_str(remote);
    out
}

/// What is left to do of a pull once the remote has been fetched and compared.
#[derive(Debug)]
pub enum PullStep {
    /// Move the branch of this name to what was fetched, then report.
    FastForward { refname: String, report: String },
    /// Report success.
    Done(String),
    /// Report failure.
    Refused(String),
}

/// What is left to do of a pull: a branch that can be moved forward is, where it exists; what is
/// up to date stays; anything else needs a merge and is refused.
pub open spec fn pull_outcome(
    step: PullStep,
    fast_forward: bool,
    up_to_date: bool,
    reference_found: bool,
    branch: Seq<char>,
    remote: Seq<char>,
) -> bool {
    if fast_forward {
        if reference_found {
            step matches PullStep::FastForward { refname, report } && refname@ == local_branch(
                branch,
            ) && report@ == "Fast-forwarded "@ + branch + " from "@ + remote
        } else {
            step matches PullStep::Done(report) && report@ == "Pulled "@ + branch + " from "@
                + remote
        }
    } else if up_to_date {
        step matches PullStep::Done(report) && report@ == "Already up to date."@
    } else {
        step matches PullStep::Refused(report) && report@
            == "Cannot fast-forward; manual merge required."@
    }
}

/// Decides what is left to do of a pull.
pub fn pull(
    fast_forward: bool,
    up_to_date: bool,
    reference_found: bool,
    branch: &str,
    remote: &str,
) -> (r: PullStep)
    ensures
        pull_outcome(r, fast_forward, up_to_date, reference_found, branch@, remote@),
{
    if fast_forward {
        let mut report = if reference_found {
            "Fast-forwarded ".to_owned()
        } else {
            "Pulled ".to_owned()
        };
        report.push_str(branch);
        report.push_str(" from ");
        report.push_str(remote);
        if reference_found {
            PullStep::FastForward { refname: branch_ref(branch), report }
        } else {
            PullStep::Done(report)
        }
    } else if up_to_date {
        PullStep::Done("Already up to date.".to_owned())
    } else {
        PullStep::Refused("Cannot fast-forward; manual merge required.".to_owned())
    }
}

/// How to authenticate with a remote.
#[derive(Debug)]
pub enum Authentication {
    /// With a key of the agent, as this user.
    SshAgent(String),
    Default,
    Refused,
}

/// Chooses how to authenticate: a key where the remote takes one, else the default, else not.
pub fn choose_authentication(
    ssh_key: bool,
    default: bool,
    username: &Option<String>,
) -> (r: Authentication)
    ensures
        match r {
            Authentication::SshAgent(user) => ssh_key && user@ == match *username {
                Some(u) => u@,
                None => "git"@,
            },
            Authentication::Default => !ssh_key && default,
            Authentication::Refused => !ssh_key && !default,
        },
{
    if ssh_key {
        match username {
            Some(u) => Authentication::SshAgent(u.clone()),
            None => Authentication::SshAgent("git".to_owned()),
        }
    } else if default {
        Authentication::Default
    } else {
        Authentication::Refused
    }
}

/// A pull moves the branch only where it can be moved forward without a merge and exists here, and it
/// moves no other branch; it is refused only where there is something new that would need a merge.
pub proof fn pull_moves_the_branch_only_forward(
    step: PullStep,
    fast_forward: bool,
    up_to_date: bool,
    reference_found: bool,
    branch: Seq<char>,
    remote: Seq<char>,
)
    requires
        pull_outcome(step, fast_forward, up_to_date, reference_found, branch, remote),
    ensures
        step is FastForward <==> fast_forward && reference_found,
        step is Refused <==> !fast_forward && !up_to_date,
        step is FastForward ==> step->refname@ == "refs/heads/"@ + branch && step->report@
            == "Fast-forwarded "@ + branch + " from "@ + remote,
        step is Done && fast_forward ==> step->Done_0@ == "Pulled "@ + branch + " from "@ + remote,
        step is Done && !fast_forward ==> step->Done_0@ == "Already up to date."@,
        step is Refused ==> step->Refused_0@ == "Cannot fast-forward; manual merge required."@,
        local_branch(branch) == "refs/heads/"@ + branch,
{
}

} // verus!
