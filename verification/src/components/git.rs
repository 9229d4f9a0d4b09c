//! Getting the sources: clone or update the repository, then check out
//! the commit and its submodules.

use vstd::prelude::*;
use vstd::string::StringExecFns;
use crate::ast::{
    Command, CommandOptionView, CommandView, Condition, ConditionView, Statement, StatementView,
    echoed, echoed_and_asserted, no_options,
};
use crate::bash::{escape, shellescape};
use crate::path::{join_path, join_paths};
use crate::payload::{Payload, PayloadView};
use crate::text::{decimal, push_decimal};

verus! {

/// The options of a step that is shown and has to succeed.
pub open spec fn shown_and_required() -> Seq<CommandOptionView> {
    seq![CommandOptionView::EchoOption, CommandOptionView::AssertOption]
}

/// The options of a step that is shown.
pub open spec fn shown() -> Seq<CommandOptionView> {
    seq![CommandOptionView::EchoOption]
}

/// The arguments of `git clone`: the depth, and the branch where no ref is
/// to be fetched.
pub open spec fn clone_args(payload: PayloadView) -> Seq<char> {
    if payload.job.git_ref is Some {
        "--depth="@ + decimal(payload.config.git.depth as nat)
    } else {
        "--depth="@ + decimal(payload.config.git.depth as nat) + " --branch="@ + escape(
            payload.job.branch,
        )
    }
}

/// The arguments of `git submodule update`: the depth, where one is set.
pub open spec fn update_args(payload: PayloadView) -> Seq<char> {
    match payload.config.git.submodules_depth {
        Some(depth) => " --depth="@ + decimal(depth as nat),
        None => Seq::empty(),
    }
}

/// Clone the repository where it is not there yet, else bring it up to
/// date.
pub open spec fn clone_or_update(payload: PayloadView) -> StatementView {
    let slug = payload.repository.slug;
    StatementView::If(
        ConditionView::Not(Box::new(ConditionView::IsDirectory(join_path(slug, ".git"@)))),
        Box::new(
            StatementView::Statements(
                seq![
                    StatementView::Cmd(
                        CommandView::Raw(
                            "git clone "@ + clone_args(payload) + " "@
                                + payload.repository.source_url + " "@ + slug,
                        ),
                        shown_and_required(),
                    ),
                ],
            ),
        ),
        Box::new(
            StatementView::Statements(
                seq![
                    StatementView::Cmd(
                        CommandView::Raw("git -C "@ + slug + " fetch origin"@),
                        shown_and_required(),
                    ),
                    StatementView::Cmd(
                        CommandView::Raw("git -C "@ + slug + " reset --hard"@),
                        shown_and_required(),
                    ),
                ],
            ),
        ),
    )
}

/// Fetch the ref of the job, where it has one.
pub open spec fn fetch_ref(payload: PayloadView) -> StatementView {
    match payload.job.git_ref {
        Some(git_ref) => StatementView::Cmd(
            CommandView::Raw("git fetch origin +"@ + git_ref + ":"@),
            shown_and_required(),
        ),
        None => StatementView::Noop,
    }
}

/// Check out what was fetched for a pull request, else the commit.
pub open spec fn check_out(payload: PayloadView) -> StatementView {
    StatementView::Cmd(
        CommandView::Raw(
            "git checkout -qf "@ + if payload.job.pull_request {
                "FETCH_HEAD"@
            } else {
                payload.job.commit
            },
        ),
        shown_and_required(),
    )
}

/// Check out the submodules, where the job wants them and the repository
/// has some.
pub open spec fn submodules(payload: PayloadView) -> StatementView {
    if payload.config.git.submodules {
        StatementView::If(
            ConditionView::IsFile(".gitmodules"@),
            Box::new(
                StatementView::Statements(
                    seq![
                        StatementView::Cmd(CommandView::Raw("git submodule init"@), shown()),
                        StatementView::Cmd(
                            CommandView::Raw("git submodule update"@ + update_args(payload)),
                            shown(),
                        ),
                    ],
                ),
            ),
            Box::new(StatementView::Noop),
        )
    } else {
        StatementView::Noop
    }
}

/// The steps that bring the sources of a job to the working directory.
pub open spec fn git_checkout(payload: PayloadView) -> StatementView {
    StatementView::Statements(
        seq![
            StatementView::Cmd(CommandView::Mkdir("/home/travis/build"@), Seq::empty()),
            StatementView::Cmd(CommandView::Cd("build"@), Seq::empty()),
            StatementView::Cmd(CommandView::Envset("GIT_ASKPASS"@, "echo"@), Seq::empty()),
            clone_or_update(payload),
            StatementView::Cmd(CommandView::Cd(payload.repository.slug), Seq::empty()),
            fetch_ref(payload),
            check_out(payload),
            submodules(payload),
        ],
    )
}

/// The steps that get the sources hold no fold, so they can be rendered.
pub proof fn lemma_git_checkout_well_formed(payload: PayloadView)
    ensures
        git_checkout(payload).well_formed(),
{
    let update = clone_or_update(payload);
    assert(update->If_1.well_formed()) by {
        let children = update->If_1->Statements_0;
        assert forall|i: int| 0 <= i < children.len() implies (
        #[trigger] children[i]).well_formed() by {}
    }
    assert(update->If_2.well_formed()) by {
        let children = update->If_2->Statements_0;
        assert forall|i: int| 0 <= i < children.len() implies (
        #[trigger] children[i]).well_formed() by {}
    }
    let modules = submodules(payload);
    if payload.config.git.submodules {
        assert(modules->If_1.well_formed()) by {
            let children = modules->If_1->Statements_0;
            assert forall|i: int| 0 <= i < children.len() implies (
            #[trigger] children[i]).well_formed() by {}
        }
        assert(modules->If_2.well_formed());
    }
    let children = git_checkout(payload)->Statements_0;
    assert forall|i: int| 0 <= i < children.len() implies (
    #[trigger] children[i]).well_formed() by {}
}

/// The directory of the repository, read from the build directory.
pub fn git_path(payload: &Payload) -> (path: String)
    ensures
        path@ == payload@.repository.slug,
{
    payload.repository.slug.clone()
}

/// The arguments of `git clone`.
pub fn git_clone_args(payload: &Payload) -> (args: String)
    ensures
        args@ == clone_args(payload@),
{
    let mut args = String::from_str("--depth=");
    push_decimal(&mut args, payload.config.git.depth);
    if payload.job.git_ref.is_none() {
        args.append(" --branch=");
        args.append(shellescape(payload.job.branch.as_str()).as_str());
    }
    args
}

/// The arguments of `git submodule update`.
pub fn submodules_args(payload: &Payload) -> (args: String)
    ensures
        args@ == update_args(payload@),
{
    let mut args = String::new();
    match payload.config.git.submodules_depth {
        Some(depth) => {
            args.append(" --depth=");
            push_decimal(&mut args, depth);
        },
        None => {},
    }
    args
}

/// Where the sources come from.
pub fn git_source_url(payload: &Payload) -> (url: &str)
    ensures
        url@ == payload@.repository.source_url,
{
    payload.repository.source_url.as_str()
}

fn clone_or_update_step(payload: &Payload) -> (step: Statement)
    ensures
        step@ == clone_or_update(payload@),
{
    let slug = git_path(payload);
    let repository = join_paths(slug.as_str(), ".git");
    let test = Condition::IsDirectory(repository).not();

    let mut clone = String::from_str("git clone ");
    clone.append(git_clone_args(payload).as_str());
    clone.append(" ");
    clone.append(git_source_url(payload));
    clone.append(" ");
    clone.append(slug.as_str());
    let mut cloning: Vec<Statement> = Vec::new();
    cloning.push(Statement::raw(clone, echoed_and_asserted()));
    let cloning = Statement::block(cloning);

    let mut fetch = String::from_str("git -C ");
    fetch.append(slug.as_str());
    fetch.append(" fetch origin");
    let mut reset = String::from_str("git -C ");
    reset.append(slug.as_str());
    reset.append(" reset --hard");
    let mut updating: Vec<Statement> = Vec::new();
    updating.push(Statement::raw(fetch, echoed_and_asserted()));
    updating.push(Statement::raw(reset, echoed_and_asserted()));
    let updating = Statement::block(updating);

    assert(cloning@->Statements_0 =~= clone_or_update(payload@)->If_1->Statements_0);
    assert(updating@->Statements_0 =~= clone_or_update(payload@)->If_2->Statements_0);
    Statement::if_else(test, cloning, updating)
}

fn fetch_ref_step(payload: &Payload) -> (step: Statement)
    ensures
        step@ == fetch_ref(payload@),
{
    match &payload.job.git_ref {
        Some(git_ref) => {
            let mut fetch = String::from_str("git fetch origin +");
            fetch.append(git_ref.as_str());
            fetch.append(":");
            Statement::raw(fetch, echoed_and_asserted())
        },
        None => Statement::Noop,
    }
}

fn check_out_step(payload: &Payload) -> (step: Statement)
    ensures
        step@ == check_out(payload@),
{
    let mut checkout = String::from_str("git checkout -qf ");
    if payload.job.pull_request {
        checkout.append("FETCH_HEAD");
    } else {
        checkout.append(payload.job.commit.as_str());
    }
    Statement::raw(checkout, echoed_and_asserted())
}

fn submodules_step(payload: &Payload) -> (step: Statement)
    ensures
        step@ == submodules(payload@),
{
    if payload.config.git.submodules {
        let mut update = String::from_str("git submodule update");
        update.append(submodules_args(payload).as_str());
        let mut steps: Vec<Statement> = Vec::new();
        steps.push(Statement::raw(String::from_str("git submodule init"), echoed()));
        steps.push(Statement::raw(update, echoed()));
        let steps = Statement::block(steps);
        assert(steps@->Statements_0 =~= submodules(payload@)->If_1->Statements_0);
        Statement::when(Condition::IsFile(String::from_str(".gitmodules")), steps)
    } else {
        Statement::Noop
    }
}

/// The steps that bring the sources of a job to the working directory:
/// into a directory named after the repository, below the build directory.
pub fn git_checkout_ast(payload: &Payload) -> (script: Statement)
    ensures
        script@ == git_checkout(payload@),
        script@.well_formed(),
{
    let mut steps: Vec<Statement> = Vec::new();
    let build = String::from_str("/home/travis/build");
    steps.push(Statement::cmd(Command::Mkdir(build), no_options()));
    steps.push(Statement::cmd(Command::Cd(String::from_str("build")), no_options()));
    steps.push(Statement::set("GIT_ASKPASS", "echo"));
    steps.push(clone_or_update_step(payload));
    steps.push(Statement::cmd(Command::Cd(git_path(payload)), no_options()));
    steps.push(fetch_ref_step(payload));
    steps.push(check_out_step(payload));
    steps.push(submodules_step(payload));
    let script = Statement::block(steps);
    proof {
        assert(script@->Statements_0 =~= git_checkout(payload@)->Statements_0);
        lemma_git_checkout_well_formed(payload@);
    }
    script
}

} // verus!
