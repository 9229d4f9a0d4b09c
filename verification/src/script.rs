//! The whole script of a job.

use vstd::prelude::*;
use vstd::string::StringExecFns;
use crate::ast::{Command, CommandView, Statement, StatementView, no_options};
use crate::bash::{statement_text, ToBash};
use crate::components::git::{git_checkout, git_checkout_ast};
use crate::components::services::{start_services, start_services_ast};
use crate::payload::{Payload, PayloadView};

verus! {

/// Makes the name servers of the build machine known to it, if they are
/// not.
pub const RESOLV_CONF_FIX: &'static str =
    "grep '199.91.168' /etc/resolv.conf > /dev/null || echo 'nameserver 199.91.168.70\nnameserver 199.91.168.71' | sudo tee /etc/resolv.conf &> /dev/null";

/// Makes the host name of the build machine resolve to the machine.
pub const ETC_HOSTS_FIX: &'static str =
    "sudo sed -e 's/^\\(127\\.0\\.0\\.1.*\\)$/\\1 '`hostname`'/' -i'.bak' /etc/hosts";

/// What a paranoid build says of itself.
pub const PARANOID_NOTICE: &'static str =
    "Sudo, the Firefox addon, setuid and setgid have been disabled.";

/// Takes away sudo and every setuid bit.
pub const PARANOID_LOCKDOWN: &'static str =
    "sudo -n sh -c \"sed -e \\'s/^%.*//\\' -i.bak /etc/sudoers && rm -f /etc/sudoers.d/travis && find / -perm -4000 -exec chmod a-s {} \\; 2>/dev/null\"";

/// The script of one job.
pub struct Script {
    payload: Payload,
}

/// An action without options.
pub open spec fn plain(command: CommandView) -> StatementView {
    StatementView::Cmd(command, Seq::empty())
}

/// The repairs of the build machine that the job asks for.
pub open spec fn fixes(payload: PayloadView) -> StatementView {
    StatementView::Statements(
        seq![
            if payload.fix_resolv_conf {
                plain(CommandView::Raw(RESOLV_CONF_FIX@))
            } else {
                StatementView::Noop
            },
            if payload.fix_etc_hosts {
                plain(CommandView::Raw(ETC_HOSTS_FIX@))
            } else {
                StatementView::Noop
            },
        ],
    )
}

/// The lockdown of a paranoid job; nothing for any other.
pub open spec fn paranoid_mode(payload: PayloadView) -> StatementView {
    if payload.paranoid {
        StatementView::Statements(
            seq![
                plain(CommandView::Newline),
                plain(CommandView::Echo(PARANOID_NOTICE@)),
                plain(CommandView::Raw(PARANOID_LOCKDOWN@)),
            ],
        )
    } else {
        StatementView::Noop
    }
}

/// The variables by which a build knows where it runs.
pub open spec fn exported_vars() -> StatementView {
    StatementView::Statements(
        seq![
            plain(CommandView::Envset("TRAVIS"@, "true"@)),
            plain(CommandView::Envset("CI"@, "true"@)),
            plain(CommandView::Envset("CONTINUOUS_INTEGRATION"@, "true"@)),
            plain(CommandView::Envset("HAS_JOSH_K_SEAL_OF_APPROVAL"@, "true"@)),
        ],
    )
}

/// The stages that every job has.
pub open spec fn builtin_stages(payload: PayloadView) -> StatementView {
    StatementView::Statements(
        seq![
            fixes(payload),
            git_checkout(payload),
            start_services(payload),
            paranoid_mode(payload),
            exported_vars(),
        ],
    )
}

/// The stages that a job adds of its own: none so far.
pub open spec fn custom_stages(payload: PayloadView) -> StatementView {
    StatementView::Noop
}

/// The statement tree of a job.
pub open spec fn script_tree(payload: PayloadView) -> StatementView {
    StatementView::Statements(seq![builtin_stages(payload), custom_stages(payload)])
}

/// The script of a job between a header and a footer.
pub open spec fn script_text(payload: PayloadView, header: Seq<char>, footer: Seq<char>) -> Seq<
    char,
> {
    header + statement_text(script_tree(payload)) + "\n"@ + footer
}

impl View for Script {
    type V = PayloadView;

    closed spec fn view(&self) -> PayloadView {
        self.payload@
    }
}

impl Script {
    /// The script of the job that `payload` describes.
    pub fn new(payload: Payload) -> (script: Script)
        ensures
            script@ == payload@,
    {
        Script { payload }
    }

    /// The text of the script, between the header and the footer that the
    /// caller supplies. The header has to define the two shell functions
    /// that the script calls, `travis_cmd` and `travis_fold`.
    pub fn to_script(&self, header: &str, footer: &str) -> (text: String)
        ensures
            text@ == script_text(self@, header@, footer@),
    {
        let ast = self.generate_ast();
        let mut script = String::from_str(header);
        script.append(ast.to_bash().as_str());
        script.append("\n");
        script.append(footer);
        script
    }

    /// The statement tree of the job.
    pub fn generate_ast(&self) -> (ast: Statement)
        ensures
            ast@ == script_tree(self@),
            ast@.well_formed(),
    {
        let mut stages: Vec<Statement> = Vec::new();
        stages.push(self.builtin_stages_ast());
        stages.push(self.custom_stages_ast());
        let ast = Statement::block(stages);
        assert(ast@->Statements_0 =~= script_tree(self@)->Statements_0);
        ast
    }

    /// The stages that every job has: repairs, sources, services, lockdown
    /// and variables.
    pub fn builtin_stages_ast(&self) -> (ast: Statement)
        ensures
            ast@ == builtin_stages(self@),
            ast@.well_formed(),
    {
        let mut stages: Vec<Statement> = Vec::new();
        stages.push(self.apply_fixes());
        stages.push(git_checkout_ast(&self.payload));
        stages.push(start_services_ast(&self.payload));
        stages.push(self.enable_paranoid_mode());
        stages.push(self.export_vars());
        let ast = Statement::block(stages);
        assert(ast@->Statements_0 =~= builtin_stages(self@)->Statements_0);
        ast
    }

    /// The stages that the job adds of its own.
    pub fn custom_stages_ast(&self) -> (ast: Statement)
        ensures
            ast@ == custom_stages(self@),
            ast@.well_formed(),
    {
        Statement::Noop
    }

    /// The repairs of the build machine that the job asks for.
    pub fn apply_fixes(&self) -> (ast: Statement)
        ensures
            ast@ == fixes(self@),
            ast@.well_formed(),
    {
        let mut steps: Vec<Statement> = Vec::new();
        if self.payload.fix_resolv_conf {
            steps.push(Statement::raw(String::from_str(RESOLV_CONF_FIX), no_options()));
        } else {
            steps.push(Statement::Noop);
        }
        if self.payload.fix_etc_hosts {
            steps.push(Statement::raw(String::from_str(ETC_HOSTS_FIX), no_options()));
        } else {
            steps.push(Statement::Noop);
        }
        let ast = Statement::block(steps);
        assert(ast@->Statements_0 =~= fixes(self@)->Statements_0);
        ast
    }

    /// The lockdown of a paranoid job; nothing for any other.
    pub fn enable_paranoid_mode(&self) -> (ast: Statement)
        ensures
            ast@ == paranoid_mode(self@),
            ast@.well_formed(),
    {
        if !self.payload.paranoid {
            return Statement::Noop;
        }
        let mut steps: Vec<Statement> = Vec::new();
        steps.push(Statement::cmd(Command::Newline, no_options()));
        steps.push(Statement::cmd(Command::Echo(String::from_str(PARANOID_NOTICE)), no_options()));
        steps.push(Statement::raw(String::from_str(PARANOID_LOCKDOWN), no_options()));
        let ast = Statement::block(steps);
        assert(ast@->Statements_0 =~= paranoid_mode(self@)->Statements_0);
        ast
    }

    /// The variables by which a build knows where it runs.
    pub fn export_vars(&self) -> (ast: Statement)
        ensures
            ast@ == exported_vars(),
            ast@.well_formed(),
    {
        let mut steps: Vec<Statement> = Vec::new();
        steps.push(Statement::set("TRAVIS", "true"));
        steps.push(Statement::set("CI", "true"));
        steps.push(Statement::set("CONTINUOUS_INTEGRATION", "true"));
        steps.push(Statement::set("HAS_JOSH_K_SEAL_OF_APPROVAL", "true"));
        let ast = Statement::block(steps);
        assert(ast@->Statements_0 =~= exported_vars()->Statements_0);
        ast
    }
}

} // verus!
