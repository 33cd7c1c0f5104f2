//! What the actions of the git panel do: the work that they ask of the repository, and what the
//! panel makes of the replies.

use vstd::prelude::*;

use crate::git::diff::FileDiff;
use crate::text;
use crate::text::{concat2, concat3, push_decimal, push_text};
use crate::ui::git_panel;
use crate::ui::git_panel::{GitPanelAction, GitPanelState};

verus! {

/// A piece of work that an action asks for.
#[derive(Debug)]
pub enum GitTask {
    Refresh,
    Nothing,
    StageFile(String),
    UnstageFile(String),
    StageAll,
    UnstageAll,
    Diff(String, bool),
    Commit(String),
    CheckoutBranch(String),
    CreateBranch(String),
    DeleteBranch(String),
    StashSave,
    StashApply(usize),
    StashDrop(usize),
    /// The remote.
    Fetch(String),
    /// The remote.
    Pull(String),
    /// The remote and the branch.
    Push(String, String),
    TogglePosition,
    LoadConfig,
}

/// What a piece of work came to. Each kind of work reads the parts that it fills.
#[derive(Debug)]
pub struct GitReply {
    /// The message of what was done, or the error.
    pub result: Result<String, String>,
    pub diff: Option<FileDiff>,
    pub config_global: Vec<(String, String)>,
    pub config_local: Vec<(String, String)>,
}

/// What is left to do once all actions have been handled.
#[derive(Debug)]
pub struct GitOutcome {
    pub needs_refresh: bool,
    pub needs_dir_reload: bool,
    /// Messages to show, in their order.
    pub messages: Vec<String>,
    /// Whether the panel goes to its other position.
    pub moves_panel: bool,
}

/// What the actions change: parts of the panel, and what is left to do.
#[verifier::ext_equal]
pub struct GitEffect {
    pub commit_msg: Seq<char>,
    pub new_branch_name: Seq<char>,
    pub op_log: Seq<Seq<char>>,
    pub diff: Option<FileDiff>,
    pub diff_file: Option<(Seq<char>, bool)>,
    pub config_global: Vec<(String, String)>,
    pub config_local: Vec<(String, String)>,
    pub config_loaded: bool,
    pub needs_refresh: bool,
    pub needs_dir_reload: bool,
    pub messages: Seq<Seq<char>>,
    pub moves_panel: bool,
}

/// The parts of a panel and of an outcome that actions change.
pub open spec fn effect_of(panel: GitPanelState, outcome: GitOutcome) -> GitEffect {
    GitEffect {
        commit_msg: panel.commit_msg@,
        new_branch_name: panel.new_branch_name@,
        op_log: text::text_views(panel.op_log@),
        diff: panel.diff,
        diff_file: git_panel::diff_file_view(panel.diff_file),
        config_global: panel.config_global,
        config_local: panel.config_local,
        config_loaded: panel.config_loaded,
        needs_refresh: outcome.needs_refresh,
        needs_dir_reload: outcome.needs_dir_reload,
        messages: text::text_views(outcome.messages@),
        moves_panel: outcome.moves_panel,
    }
}

/// The parts that actions change before any of them has been handled.
pub open spec fn untouched(panel: GitPanelState) -> GitEffect {
    GitEffect {
        commit_msg: panel.commit_msg@,
        new_branch_name: panel.new_branch_name@,
        op_log: text::text_views(panel.op_log@),
        diff: panel.diff,
        diff_file: git_panel::diff_file_view(panel.diff_file),
        config_global: panel.config_global,
        config_local: panel.config_local,
        config_loaded: panel.config_loaded,
        needs_refresh: false,
        needs_dir_reload: false,
        messages: Seq::empty(),
        moves_panel: false,
    }
}

/// The branch that is pushed: the current one, or `main` where none is known.
pub open spec fn pushed_branch(panel: GitPanelState) -> Seq<char> {
    match panel.status {
        Some(s) => match s.head_branch {
            Some(b) => b@,
            None => "main"@,
        },
        None => "main"@,
    }
}

/// Whether a piece of work is the one that an action asks for.
pub open spec fn is_task_of(task: GitTask, action: GitPanelAction, panel: GitPanelState) -> bool {
    match (action, task) {
        (GitPanelAction::Refresh, GitTask::Refresh) => true,
        (GitPanelAction::SwitchTab(_), GitTask::Nothing) => true,
        (GitPanelAction::StageFile(p), GitTask::StageFile(q)) => q@ == p@,
        (GitPanelAction::UnstageFile(p), GitTask::UnstageFile(q)) => q@ == p@,
        (GitPanelAction::StageAll, GitTask::StageAll) => true,
        (GitPanelAction::UnstageAll, GitTask::UnstageAll) => true,
        (GitPanelAction::SelectDiff(p, s), GitTask::Diff(q, t)) => q@ == p@ && t == s,
        (GitPanelAction::Commit(m), GitTask::Commit(n)) => n@ == m@,
        (GitPanelAction::CheckoutBranch(m), GitTask::CheckoutBranch(n)) => n@ == m@,
        (GitPanelAction::CreateBranch(m), GitTask::CreateBranch(n)) => n@ == m@,
        (GitPanelAction::DeleteBranch(m), GitTask::DeleteBranch(n)) => n@ == m@,
        (GitPanelAction::StashSave, GitTask::StashSave) => true,
        (GitPanelAction::StashApply(i), GitTask::StashApply(j)) => i == j,
        (GitPanelAction::StashDrop(i), GitTask::StashDrop(j)) => i == j,
        (GitPanelAction::Fetch, GitTask::Fetch(r)) => r@ == panel.remote_name@,
        (GitPanelAction::Pull, GitTask::Pull(r)) => r@ == panel.remote_name@,
        (GitPanelAction::Push, GitTask::Push(r, b)) => r@ == panel.remote_name@ && b@
            == pushed_branch(panel),
        (GitPanelAction::TogglePosition, GitTask::TogglePosition) => true,
        (GitPanelAction::LoadConfig, GitTask::LoadConfig) => true,
        _ => false,
    }
}

/// What is said when a piece of work has failed, before the error.
pub open spec fn failure_text(task: GitTask) -> Seq<char> {
    match task {
        GitTask::StageFile(_) => "Stage failed: "@,
        GitTask::UnstageFile(_) => "Unstage failed: "@,
        GitTask::StageAll => "Stage all failed: "@,
        GitTask::UnstageAll => "Unstage all failed: "@,
        GitTask::Commit(_) => "Commit failed: "@,
        GitTask::CheckoutBranch(_) => "Checkout failed: "@,
        GitTask::CreateBranch(_) => "Create branch failed: "@,
        GitTask::DeleteBranch(_) => "Delete branch failed: "@,
        GitTask::StashSave => "Stash failed: "@,
        GitTask::StashApply(_) => "Stash apply failed: "@,
        GitTask::StashDrop(_) => "Stash drop failed: "@,
        GitTask::Fetch(_) => "fetch error: "@,
        GitTask::Pull(_) => "pull error: "@,
        GitTask::Push(_, _) => "push error: "@,
        _ => Seq::empty(),
    }
}

/// What is said when a piece of work has been done, where anything is.
pub open spec fn success_text(task: GitTask) -> Option<Seq<char>> {
    match task {
        GitTask::Commit(_) => Some("Committed."@),
        GitTask::CheckoutBranch(name) => Some("Checked out '"@ + name@ + "'"@),
        GitTask::CreateBranch(name) => Some("Created branch '"@ + name@ + "'"@),
        GitTask::DeleteBranch(name) => Some("Deleted branch '"@ + name@ + "'"@),
        GitTask::StashSave => Some("Stashed working changes."@),
        GitTask::StashApply(i) => Some("Applied stash ["@ + text::decimal(i as nat) + "]"@),
        GitTask::StashDrop(i) => Some("Dropped stash ["@ + text::decimal(i as nat) + "]"@),
        _ => None,
    }
}

/// Whether a piece of work is with a remote, whose replies go to the log.
pub open spec fn is_remote(task: GitTask) -> bool {
    task is Fetch || task is Pull || task is Push
}

/// Whether a piece of work changes the repository, and tells only whether it worked.
pub open spec fn is_local(task: GitTask) -> bool {
    task is StageFile || task is UnstageFile || task is StageAll || task is UnstageAll
        || task is Commit || task is CheckoutBranch || task is CreateBranch || task is DeleteBranch
        || task is StashSave || task is StashApply || task is StashDrop
}

/// Whether the files of the working directory change with a piece of work.
pub open spec fn changes_files(task: GitTask) -> bool {
    task is CheckoutBranch || task is StashSave || task is StashApply || task is Pull
}

/// What the log says of work with a remote.
pub open spec fn log_text(task: GitTask, message: Seq<char>) -> Seq<char> {
    match task {
        GitTask::Fetch(r) => "fetch "@ + r@ + ": "@ + message,
        GitTask::Pull(r) => "pull "@ + r@ + ": "@ + message,
        GitTask::Push(r, b) => "push "@ + r@ + "/"@ + b@ + ": "@ + message,
        _ => message,
    }
}

/// What a piece of work and its reply make of the panel and of what is left to do.
pub open spec fn effect_after(e: GitEffect, task: GitTask, reply: GitReply) -> GitEffect {
    if task is Refresh {
        GitEffect { needs_refresh: true, ..e }
    } else if task is TogglePosition {
        GitEffect { moves_panel: !e.moves_panel, ..e }
    } else if task is LoadConfig {
        GitEffect {
            config_global: reply.config_global,
            config_local: reply.config_local,
            config_loaded: true,
            ..e
        }
    } else if is_local(task) || is_remote(task) {
        match reply.result {
            Ok(message) => GitEffect {
                commit_msg: if task is Commit {
                    Seq::empty()
                } else {
                    e.commit_msg
                },
                new_branch_name: if task is CreateBranch {
                    Seq::empty()
                } else {
                    e.new_branch_name
                },
                op_log: if is_remote(task) {
                    e.op_log.push(log_text(task, message@))
                } else {
                    e.op_log
                },
                messages: match success_text(task) {
                    Some(t) => e.messages.push(t),
                    None => e.messages,
                },
                needs_refresh: e.needs_refresh || !(task is Push),
                needs_dir_reload: e.needs_dir_reload || changes_files(task),
                ..e
            },
            Err(error) => if is_remote(task) {
                GitEffect { op_log: e.op_log.push(failure_text(task) + error@), ..e }
            } else {
                GitEffect { messages: e.messages.push(failure_text(task) + error@), ..e }
            },
        }
    } else {
        match task {
            GitTask::Diff(path, staged) => GitEffect {
                diff: reply.diff,
                diff_file: Some((path@, staged)),
                ..e
            },
            _ => e,
        }
    }
}

/// What a list of work with its replies makes of the panel and of what is left to do.
pub open spec fn effect_of_all(e: GitEffect, work: Seq<(GitTask, GitReply)>) -> GitEffect
    decreases work.len(),
{
    if work.len() == 0 {
        e
    } else {
        effect_after(effect_of_all(e, work.drop_last()), work.last().0, work.last().1)
    }
}

/// What a panel keeps whatever the actions are.
pub open spec fn keeps_the_rest(a: GitPanelState, b: GitPanelState) -> bool {
    &&& a.tab == b.tab
    &&& a.graph == b.graph
    &&& a.graph_selected == b.graph_selected
    &&& a.status == b.status
    &&& a.branches == b.branches
    &&& a.stashes == b.stashes
    &&& a.remote_name == b.remote_name
}

/// A number in brackets behind a text.
fn numbered(front: &str, n: usize) -> (r: String)
    ensures
        r@ == front@ + text::decimal(n as nat) + "]"@,
{
    let mut out = front.to_owned();
    push_decimal(&mut out, n as u64);
    out.push_str("]");
    out
}

impl GitTask {
    /// What is said when the work has failed.
    pub fn failure(&self, error: &str) -> (r: String)
        ensures
            r@ == failure_text(*self) + error@,
    {
        let front = match self {
            GitTask::StageFile(_) => "Stage failed: ",
            GitTask::UnstageFile(_) => "Unstage failed: ",
            GitTask::StageAll => "Stage all failed: ",
            GitTask::UnstageAll => "Unstage all failed: ",
            GitTask::Commit(_) => "Commit failed: ",
            GitTask::CheckoutBranch(_) => "Checkout failed: ",
            GitTask::CreateBranch(_) => "Create branch failed: ",
            GitTask::DeleteBranch(_) => "Delete branch failed: ",
            GitTask::StashSave => "Stash failed: ",
            GitTask::StashApply(_) => "Stash apply failed: ",
            GitTask::StashDrop(_) => "Stash drop failed: ",
            GitTask::Fetch(_) => "fetch error: ",
            GitTask::Pull(_) => "pull error: ",
            GitTask::Push(_, _) => "push error: ",
            _ => {
                proof {
                    reveal_strlit("");
                }
                assert(""@ =~= Seq::empty());
                ""
            },
        };
        concat2(front, error)
    }

    /// What is said when the work has been done, where anything is.
    pub fn success(&self) -> (r: Option<String>)
        ensures
            text::optional_text(r) == success_text(*self),
    {
        match self {
            GitTask::Commit(_) => Some("Committed.".to_owned()),
            GitTask::CheckoutBranch(name) => Some(concat3("Checked out '", name.as_str(), "'")),
            GitTask::CreateBranch(name) => Some(concat3("Created branch '", name.as_str(), "'")),
            GitTask::DeleteBranch(name) => Some(concat3("Deleted branch '", name.as_str(), "'")),
            GitTask::StashSave => Some("Stashed working changes.".to_owned()),
            GitTask::StashApply(i) => Some(numbered("Applied stash [", *i)),
            GitTask::StashDrop(i) => Some(numbered("Dropped stash [", *i)),
            _ => None,
        }
    }

    /// Whether the files of the working directory change with the work.
    pub fn changes_working_files(&self) -> (r: bool)
        ensures
            r == changes_files(*self),
    {
        match self {
            GitTask::CheckoutBranch(_) => true,
            GitTask::StashSave => true,
            GitTask::StashApply(_) => true,
            GitTask::Pull(_) => true,
            _ => false,
        }
    }

    /// What the log says of work with a remote.
    pub fn log_line(&self, message: String) -> (r: String)
        ensures
            r@ == log_text(*self, message@),
    {
        match self {
            GitTask::Fetch(r) => {
                let mut out = concat3("fetch ", r.as_str(), ": ");
                out.push_str(message.as_str());
                out
            },
            GitTask::Pull(r) => {
                let mut out = concat3("pull ", r.as_str(), ": ");
                out.push_str(message.as_str());
                out
            },
            GitTask::Push(r, b) => {
                let mut out = concat3("push ", r.as_str(), "/");
                out.push_str(b.as_str());
                out.push_str(": ");
                out.push_str(message.as_str());
                out
            },
            _ => message,
        }
    }
}

impl GitPanelState {
    /// The branch that is pushed.
    pub fn push_branch_name(&self) -> (r: String)
        ensures
            r@ == pushed_branch(*self),
    {
        match &self.status {
            Some(s) => match &s.head_branch {
                Some(b) => b.clone(),
                None => "main".to_owned(),
            },
            None => "main".to_owned(),
        }
    }

    /// The piece of work that an action asks for.
    pub fn task_for(&self, action: GitPanelAction) -> (r: GitTask)
        ensures
            is_task_of(r, action, *self),
    {
        match action {
            GitPanelAction::Refresh => GitTask::Refresh,
            GitPanelAction::SwitchTab(_) => GitTask::Nothing,
            GitPanelAction::StageFile(p) => GitTask::StageFile(p),
            GitPanelAction::UnstageFile(p) => GitTask::UnstageFile(p),
            GitPanelAction::StageAll => GitTask::StageAll,
            GitPanelAction::UnstageAll => GitTask::UnstageAll,
            GitPanelAction::SelectDiff(p, s) => GitTask::Diff(p, s),
            GitPanelAction::Commit(m) => GitTask::Commit(m),
            GitPanelAction::CheckoutBranch(n) => GitTask::CheckoutBranch(n),
            GitPanelAction::CreateBranch(n) => GitTask::CreateBranch(n),
            GitPanelAction::DeleteBranch(n) => GitTask::DeleteBranch(n),
            GitPanelAction::StashSave => GitTask::StashSave,
            GitPanelAction::StashApply(i) => GitTask::StashApply(i),
            GitPanelAction::StashDrop(i) => GitTask::StashDrop(i),
            GitPanelAction::Fetch => GitTask::Fetch(self.remote_name.clone()),
            GitPanelAction::Pull => GitTask::Pull(self.remote_name.clone()),
            GitPanelAction::Push => GitTask::Push(
                self.remote_name.clone(),
                self.push_branch_name(),
            ),
            GitPanelAction::TogglePosition => GitTask::TogglePosition,
            GitPanelAction::LoadConfig => GitTask::LoadConfig,
        }
    }

    /// Takes in that work on the repository itself has been done or has failed.
    fn finish_local(
        &mut self,
        task: &GitTask,
        result: Result<String, String>,
        outcome: &mut GitOutcome,
        Ghost(reply): Ghost<GitReply>,
    )
        requires
            is_local(*task),
            result == reply.result,
        ensures
            effect_of(*final(self), *final(outcome)) == effect_after(
                effect_of(*old(self), *old(outcome)),
                *task,
                reply,
            ),
            keeps_the_rest(*final(self), *old(self)),
    {
        let ghost before = effect_of(*self, *outcome);
        match result {
            Ok(_) => {
                outcome.needs_refresh = true;
                if task.changes_working_files() {
                    outcome.needs_dir_reload = true;
                }
                match task {
                    GitTask::Commit(_) => {
                        self.commit_msg = String::new();
                        assert(self.commit_msg@ =~= Seq::empty());
                    },
                    GitTask::CreateBranch(_) => {
                        self.new_branch_name = String::new();
                        assert(self.new_branch_name@ =~= Seq::empty());
                    },
                    _ => {},
                }
                match task.success() {
                    Some(t) => push_text(&mut outcome.messages, t),
                    None => {},
                }
            },
            Err(error) => {
                push_text(&mut outcome.messages, task.failure(error.as_str()));
            },
        }
        assert(effect_of(*self, *outcome) =~= effect_after(before, *task, reply));
    }

    /// Takes in that work with a remote has been done or has failed.
    fn finish_remote(
        &mut self,
        task: &GitTask,
        result: Result<String, String>,
        outcome: &mut GitOutcome,
        Ghost(reply): Ghost<GitReply>,
    )
        requires
            is_remote(*task),
            result == reply.result,
        ensures
            effect_of(*final(self), *final(outcome)) == effect_after(
                effect_of(*old(self), *old(outcome)),
                *task,
                reply,
            ),
            keeps_the_rest(*final(self), *old(self)),
    {
        let ghost before = effect_of(*self, *outcome);
        match result {
            Ok(message) => {
                push_text(&mut self.op_log, task.log_line(message));
                match task {
                    GitTask::Push(_, _) => {},
                    _ => {
                        outcome.needs_refresh = true;
                    },
                }
                if task.changes_working_files() {
                    outcome.needs_dir_reload = true;
                }
            },
            Err(error) => {
                push_text(&mut self.op_log, task.failure(error.as_str()));
            },
        }
        assert(effect_of(*self, *outcome) =~= effect_after(before, *task, reply));
    }

    /// Takes in what one piece of work came to.
    pub fn finish_task(&mut self, task: GitTask, reply: GitReply, outcome: &mut GitOutcome)
        ensures
            effect_of(*final(self), *final(outcome)) == effect_after(
                effect_of(*old(self), *old(outcome)),
                task,
                reply,
            ),
            keeps_the_rest(*final(self), *old(self)),
    {
        let ghost whole = reply;
        match task {
            GitTask::Refresh => {
                outcome.needs_refresh = true;
            },
            GitTask::Nothing => {},
            GitTask::Diff(path, staged) => {
                self.diff = reply.diff;
                self.diff_file = Some((path, staged));
            },
            GitTask::TogglePosition => {
                outcome.moves_panel = !outcome.moves_panel;
            },
            GitTask::LoadConfig => {
                self.config_global = reply.config_global;
                self.config_local = reply.config_local;
                self.config_loaded = true;
            },
            GitTask::Fetch(_) | GitTask::Pull(_) | GitTask::Push(_, _) => {
                self.finish_remote(&task, reply.result, outcome, Ghost(whole));
            },
            _ => {
                self.finish_local(&task, reply.result, outcome, Ghost(whole));
            },
        }
    }

    /// Takes in what all the work that the actions asked for came to, in its order.
    pub fn handle_git_actions(&mut self, work: Vec<(GitTask, GitReply)>) -> (r: GitOutcome)
        ensures
            effect_of(*final(self), r) == effect_of_all(untouched(*old(self)), work@),
            keeps_the_rest(*final(self), *old(self)),
    {
        let mut outcome = GitOutcome {
            needs_refresh: false,
            needs_dir_reload: false,
            messages: Vec::new(),
            moves_panel: false,
        };
        let ghost start = untouched(*self);
        let ghost all = work@;
        let ghost first = *self;
        let mut rest = work;
        let ghost mut i: int = 0;
        assert(effect_of(*self, outcome) =~= start);
        assert(all.take(0) =~= Seq::empty());
        while rest.len() > 0
            invariant
                0 <= i <= all.len(),
                rest@ == all.skip(i),
                effect_of(*self, outcome) == effect_of_all(start, all.take(i)),
                keeps_the_rest(*self, first),
            decreases rest@.len(),
        {
            let (task, reply) = rest.remove(0);
            proof {
                assert(all.take(i + 1).drop_last() =~= all.take(i));
                assert(all.take(i + 1).last() == all[i]);
                assert(rest@ =~= all.skip(i + 1));
                i = i + 1;
            }
            self.finish_task(task, reply, &mut outcome);
        }
        assert(all.take(i) =~= all);
        outcome
    }
}

/// Work that has failed changes nothing but one line: of the messages, or of the log where it was
/// with a remote.
pub proof fn failed_work_only_says_so(e: GitEffect, task: GitTask, reply: GitReply)
    requires
        is_local(task) || is_remote(task),
        reply.result is Err,
    ensures
        effect_after(e, task, reply) == (GitEffect {
            messages: effect_after(e, task, reply).messages,
            op_log: effect_after(e, task, reply).op_log,
            ..e
        }),
        is_local(task) ==> effect_after(e, task, reply).op_log == e.op_log
            && effect_after(e, task, reply).messages.len() == e.messages.len() + 1,
        is_remote(task) ==> effect_after(e, task, reply).messages == e.messages
            && effect_after(e, task, reply).op_log.len() == e.op_log.len() + 1,
{
}

/// Once any work on the repository has been done, what the panel shows is read anew, whatever
/// else was asked for.
pub proof fn done_work_is_shown(e: GitEffect, work: Seq<(GitTask, GitReply)>, i: int)
    requires
        0 <= i < work.len(),
        is_local(work[i].0),
        work[i].1.result is Ok,
    ensures
        effect_of_all(e, work).needs_refresh,
    decreases work.len(),
{
    if i < work.len() - 1 {
        assert(work.drop_last()[i] == work[i]);
        done_work_is_shown(e, work.drop_last(), i);
    }
}

/// Moving the panel twice leaves it where it was.
pub proof fn panel_moved_twice_is_back(e: GitEffect, first: GitReply, second: GitReply)
    ensures
        effect_after(
            effect_after(e, GitTask::TogglePosition, first),
            GitTask::TogglePosition,
            second,
        ) == e,
{
}

/// Each action of the panel is one piece of work on the repository: the one that it is called, on the
/// same file, branch or stash. What goes to another repository goes to the remote of the panel, and
/// what is pushed is the branch that is checked out, or `main` where none is known.
pub proof fn actions_become_their_work(task: GitTask, action: GitPanelAction, panel: GitPanelState)
    requires
        is_task_of(task, action, panel),
    ensures
        match action {
            GitPanelAction::Refresh => task is Refresh,
            GitPanelAction::SwitchTab(_) => task is Nothing,
            GitPanelAction::StageFile(p) => task is StageFile && task->StageFile_0@ == p@,
            GitPanelAction::UnstageFile(p) => task is UnstageFile && task->UnstageFile_0@ == p@,
            GitPanelAction::StageAll => task is StageAll,
            GitPanelAction::UnstageAll => task is UnstageAll,
            GitPanelAction::SelectDiff(p, s) => task is Diff && task->Diff_0@ == p@ && task->Diff_1
                == s,
            GitPanelAction::Commit(m) => task is Commit && task->Commit_0@ == m@,
            GitPanelAction::CheckoutBranch(m) => task is CheckoutBranch
                && task->CheckoutBranch_0@ == m@,
            GitPanelAction::CreateBranch(m) => task is CreateBranch && task->CreateBranch_0@ == m@,
            GitPanelAction::DeleteBranch(m) => task is DeleteBranch && task->DeleteBranch_0@ == m@,
            GitPanelAction::StashSave => task is StashSave,
            GitPanelAction::StashApply(i) => task is StashApply && task->StashApply_0 == i,
            GitPanelAction::StashDrop(i) => task is StashDrop && task->StashDrop_0 == i,
            GitPanelAction::Fetch => task is Fetch && task->Fetch_0@ == panel.remote_name@,
            GitPanelAction::Pull => task is Pull && task->Pull_0@ == panel.remote_name@,
            GitPanelAction::Push => task is Push && task->Push_0@ == panel.remote_name@
                && task->Push_1@ == pushed_branch(panel),
            GitPanelAction::TogglePosition => task is TogglePosition,
            GitPanelAction::LoadConfig => task is LoadConfig,
        },
        panel.status is Some && panel.status->0.head_branch is Some ==> pushed_branch(panel)
            == panel.status->0.head_branch->0@,
        panel.status is None || panel.status->0.head_branch is None ==> pushed_branch(panel)
            == "main"@,
{
}

/// Work that was done: what it says, that the panel is read anew but after a push, and that the
/// directories are where files may have changed: after a checkout, a stash, its application or a pull.
/// The message of a commit and the name of a new branch are used up.
pub proof fn done_work_has_its_effect(e: GitEffect, task: GitTask, reply: GitReply)
    requires
        is_local(task) || is_remote(task),
        reply.result is Ok,
    ensures
        ({
            let after = effect_after(e, task, reply);
            &&& !(task is Push) ==> after.needs_refresh
            &&& task is Push ==> after.needs_refresh == e.needs_refresh
            &&& task is CheckoutBranch || task is StashSave || task is StashApply || task is Pull
                ==> after.needs_dir_reload
            &&& !(task is CheckoutBranch || task is StashSave || task is StashApply || task is Pull)
                ==> after.needs_dir_reload == e.needs_dir_reload
            &&& task is Commit ==> after.commit_msg.len() == 0
            &&& !(task is Commit) ==> after.commit_msg == e.commit_msg
            &&& task is CreateBranch ==> after.new_branch_name.len() == 0
            &&& !(task is CreateBranch) ==> after.new_branch_name == e.new_branch_name
            &&& task is Commit ==> after.messages == e.messages.push("Committed."@)
            &&& task is StageFile || task is UnstageFile || task is StageAll || task is UnstageAll
                || is_remote(task) ==> after.messages == e.messages
            &&& is_local(task) ==> after.op_log == e.op_log
            &&& after.diff == e.diff && after.diff_file == e.diff_file && after.config_loaded
                == e.config_loaded && after.moves_panel == e.moves_panel
        }),
        task is Fetch || task is Pull || task is Push <==> is_remote(task),
{
}

/// What is said of work that was done names what it was done to.
pub proof fn done_work_is_told(e: GitEffect, name: String, i: usize, reply: GitReply, branch: String)
    requires
        reply.result is Ok,
    ensures
        effect_after(e, GitTask::CheckoutBranch(name), reply).messages == e.messages.push(
            "Checked out '"@ + name@ + "'"@,
        ),
        effect_after(e, GitTask::CreateBranch(name), reply).messages == e.messages.push(
            "Created branch '"@ + name@ + "'"@,
        ),
        effect_after(e, GitTask::DeleteBranch(name), reply).messages == e.messages.push(
            "Deleted branch '"@ + name@ + "'"@,
        ),
        effect_after(e, GitTask::StashSave, reply).messages == e.messages.push(
            "Stashed working changes."@,
        ),
        effect_after(e, GitTask::StashApply(i), reply).messages == e.messages.push(
            "Applied stash ["@ + text::decimal(i as nat) + "]"@,
        ),
        effect_after(e, GitTask::StashDrop(i), reply).messages == e.messages.push(
            "Dropped stash ["@ + text::decimal(i as nat) + "]"@,
        ),
        effect_after(e, GitTask::Fetch(name), reply).op_log == e.op_log.push(
            "fetch "@ + name@ + ": "@ + reply.result->Ok_0@,
        ),
        effect_after(e, GitTask::Pull(name), reply).op_log == e.op_log.push(
            "pull "@ + name@ + ": "@ + reply.result->Ok_0@,
        ),
        effect_after(e, GitTask::Push(name, branch), reply).op_log == e.op_log.push(
            "push "@ + name@ + "/"@ + branch@ + ": "@ + reply.result->Ok_0@,
        ),
{
}

/// What is said of work that failed names the work and the error.
pub proof fn failed_work_is_told(e: GitEffect, name: String, i: usize, reply: GitReply, branch: String)
    requires
        reply.result is Err,
    ensures
        ({
            let said = reply.result->Err_0@;
            &&& effect_after(e, GitTask::StageFile(name), reply).messages == e.messages.push(
                "Stage failed: "@ + said,
            )
            &&& effect_after(e, GitTask::UnstageFile(name), reply).messages == e.messages.push(
                "Unstage failed: "@ + said,
            )
            &&& effect_after(e, GitTask::StageAll, reply).messages == e.messages.push(
                "Stage all failed: "@ + said,
            )
            &&& effect_after(e, GitTask::UnstageAll, reply).messages == e.messages.push(
                "Unstage all failed: "@ + said,
            )
            &&& effect_after(e, GitTask::Commit(name), reply).messages == e.messages.push(
                "Commit failed: "@ + said,
            )
            &&& effect_after(e, GitTask::CheckoutBranch(name), reply).messages == e.messages.push(
                "Checkout failed: "@ + said,
            )
            &&& effect_after(e, GitTask::CreateBranch(name), reply).messages == e.messages.push(
                "Create branch failed: "@ + said,
            )
            &&& effect_after(e, GitTask::DeleteBranch(name), reply).messages == e.messages.push(
                "Delete branch failed: "@ + said,
            )
            &&& effect_after(e, GitTask::StashSave, reply).messages == e.messages.push(
                "Stash failed: "@ + said,
            )
            &&& effect_after(e, GitTask::StashApply(i), reply).messages == e.messages.push(
                "Stash apply failed: "@ + said,
            )
            &&& effect_after(e, GitTask::StashDrop(i), reply).messages == e.messages.push(
                "Stash drop failed: "@ + said,
            )
            &&& effect_after(e, GitTask::Fetch(name), reply).op_log == e.op_log.push(
                "fetch error: "@ + said,
            )
            &&& effect_after(e, GitTask::Pull(name), reply).op_log == e.op_log.push(
                "pull error: "@ + said,
            )
            &&& effect_after(e, GitTask::Push(name, branch), reply).op_log == e.op_log.push(
                "push error: "@ + said,
            )
        }),
{
}

/// Asking to refresh, moving the panel, reading the configuration and showing a difference do just
/// that.
pub proof fn other_work_has_its_effect(e: GitEffect, name: String, staged: bool, reply: GitReply)
    ensures
        effect_after(e, GitTask::Refresh, reply) == (GitEffect { needs_refresh: true, ..e }),
        effect_after(e, GitTask::TogglePosition, reply) == (GitEffect {
            moves_panel: !e.moves_panel,
            ..e
        }),
        effect_after(e, GitTask::LoadConfig, reply) == (GitEffect {
            config_global: reply.config_global,
            config_local: reply.config_local,
            config_loaded: true,
            ..e
        }),
        effect_after(e, GitTask::Diff(name, staged), reply) == (GitEffect {
            diff: reply.diff,
            diff_file: Some((name@, staged)),
            ..e
        }),
        effect_after(e, GitTask::Nothing, reply) == e,
{
}

/// Work takes effect in its order.
pub proof fn work_takes_effect_in_turn(
    e: GitEffect,
    work: Seq<(GitTask, GitReply)>,
    task: GitTask,
    reply: GitReply,
)
    ensures
        effect_of_all(e, Seq::empty()) == e,
        effect_of_all(e, work.push((task, reply))) == effect_after(
            effect_of_all(e, work),
            task,
            reply,
        ),
{
    assert(work.push((task, reply)).drop_last() =~= work);
}

/// What a task changes is seen on the panel, and a panel that nothing was done to is left as it is.
pub proof fn effect_is_seen_on_the_panel(panel: GitPanelState, outcome: GitOutcome)
    ensures
        effect_of(panel, outcome).commit_msg == panel.commit_msg@,
        effect_of(panel, outcome).new_branch_name == panel.new_branch_name@,
        effect_of(panel, outcome).op_log.len() == panel.op_log@.len(),
        effect_of(panel, outcome).diff == panel.diff,
        effect_of(panel, outcome).config_global == panel.config_global,
        effect_of(panel, outcome).config_local == panel.config_local,
        effect_of(panel, outcome).config_loaded == panel.config_loaded,
        effect_of(panel, outcome).needs_refresh == outcome.needs_refresh,
        effect_of(panel, outcome).needs_dir_reload == outcome.needs_dir_reload,
        effect_of(panel, outcome).moves_panel == outcome.moves_panel,
        outcome.messages@.len() == 0 && !outcome.needs_refresh && !outcome.needs_dir_reload
            && !outcome.moves_panel ==> effect_of(panel, outcome) == untouched(panel),
        !untouched(panel).needs_refresh,
        !untouched(panel).needs_dir_reload,
        !untouched(panel).moves_panel,
        untouched(panel).messages.len() == 0,
{
    if outcome.messages@.len() == 0 {
        assert(effect_of(panel, outcome).messages =~= untouched(panel).messages);
    }
}

/// What a task leaves alone is all else on the panel.
pub proof fn the_rest_of_the_panel_is_kept(a: GitPanelState, b: GitPanelState)
    ensures
        keeps_the_rest(a, b) <==> (a.tab == b.tab && a.graph == b.graph && a.graph_selected
            == b.graph_selected && a.status == b.status && a.branches == b.branches && a.stashes
            == b.stashes && a.remote_name == b.remote_name),
{
}

} // verus!
