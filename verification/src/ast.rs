//! The statement tree: what a build script does, free of any shell syntax.
//!
//! Each executable type has a mathematical counterpart, its view, over
//! which the rest of the crate states its contracts.

use vstd::prelude::*;
use vstd::string::StringExecFns;

verus! {

broadcast use vstd::string::group_string_axioms;

/// How a command is run.
#[derive(Debug, PartialEq, Eq)]
pub enum CommandOption {
    /// Print out the command before running it.
    EchoOption,
    /// Fail the script if the command didn't succeed.
    AssertOption,
    /// The text to print in place of the command. Only makes sense with
    /// `EchoOption`.
    DisplayOption(String),
}

/// A single step. Paths are text; a relative path is read from the
/// working directory.
#[derive(Debug, PartialEq, Eq)]
pub enum Command {
    /// The text, run as it stands.
    Raw(String),
    /// Print the text.
    Echo(String),
    /// Print an empty line.
    Newline,
    /// Give the variable of the first text the value of the second.
    Envset(String, String),
    /// Make the path the working directory.
    Cd(String),
    /// Write the bytes to the file at the path.
    Putfile(String, Vec<u8>),
    /// Make a directory at the path.
    Mkdir(String),
    /// Copy what stands at the first path to the second.
    Copyfile(String, String),
    /// Move what stands at the first path to the second.
    Movefile(String, String),
    /// Remove what stands at the path.
    Removefile(String),
}

/// A test on which a statement branches.
#[derive(Debug, PartialEq, Eq)]
pub enum Condition {
    /// Something stands at the path.
    Exists(String),
    /// A directory stands at the path.
    IsDirectory(String),
    /// A file stands at the path.
    IsFile(String),
    /// The command succeeds.
    CmdCond(Command),
    And(Box<Condition>, Box<Condition>),
    Or(Box<Condition>, Box<Condition>),
    Not(Box<Condition>),
}

/// A node of the script.
#[derive(Debug, PartialEq, Eq)]
pub enum Statement {
    /// The children, run in order.
    Statements(Vec<Statement>),
    /// A named group around the body, collapsible in a log viewer. The
    /// name is not empty and holds no newline.
    Fold(String, Box<Statement>),
    /// One command and how it is run.
    Cmd(Command, Vec<CommandOption>),
    /// The first statement where the condition holds, else the second.
    If(Condition, Box<Statement>, Box<Statement>),
    /// Does nothing.
    Noop,
}

/// The view of a [`CommandOption`].
pub enum CommandOptionView {
    EchoOption,
    AssertOption,
    DisplayOption(Seq<char>),
}

/// The view of a [`Command`].
pub enum CommandView {
    Raw(Seq<char>),
    Echo(Seq<char>),
    Newline,
    Envset(Seq<char>, Seq<char>),
    Cd(Seq<char>),
    Putfile(Seq<char>, Seq<u8>),
    Mkdir(Seq<char>),
    Copyfile(Seq<char>, Seq<char>),
    Movefile(Seq<char>, Seq<char>),
    Removefile(Seq<char>),
}

/// The view of a [`Condition`].
pub enum ConditionView {
    Exists(Seq<char>),
    IsDirectory(Seq<char>),
    IsFile(Seq<char>),
    CmdCond(CommandView),
    And(Box<ConditionView>, Box<ConditionView>),
    Or(Box<ConditionView>, Box<ConditionView>),
    Not(Box<ConditionView>),
}

/// The view of a [`Statement`].
pub enum StatementView {
    Statements(Seq<StatementView>),
    Fold(Seq<char>, Box<StatementView>),
    Cmd(CommandView, Seq<CommandOptionView>),
    If(ConditionView, Box<StatementView>, Box<StatementView>),
    Noop,
}

/// Whether `name` can stand on the marker line of a fold: it is not empty
/// and holds no newline.
pub open spec fn valid_fold_name(name: Seq<char>) -> bool {
    name.len() > 0 && forall|i: int| 0 <= i < name.len() ==> name[i] != '\n'
}

impl StatementView {
    /// Whether every fold of the tree has a name that its marker lines can
    /// carry.
    pub open spec fn well_formed(self) -> bool
        decreases self,
    {
        match self {
            StatementView::Statements(children) => forall|i: int|
                0 <= i < children.len() ==> (#[trigger] children[i]).well_formed(),
            StatementView::Fold(name, body) => valid_fold_name(name) && body.well_formed(),
            StatementView::Cmd(_, _) => true,
            StatementView::If(_, body, otherwise) => body.well_formed() && otherwise.well_formed(),
            StatementView::Noop => true,
        }
    }
}

impl View for CommandOption {
    type V = CommandOptionView;

    open spec fn view(&self) -> CommandOptionView {
        match self {
            CommandOption::EchoOption => CommandOptionView::EchoOption,
            CommandOption::AssertOption => CommandOptionView::AssertOption,
            CommandOption::DisplayOption(text) => CommandOptionView::DisplayOption(text@),
        }
    }
}

impl View for Command {
    type V = CommandView;

    open spec fn view(&self) -> CommandView {
        match self {
            Command::Raw(text) => CommandView::Raw(text@),
            Command::Echo(text) => CommandView::Echo(text@),
            Command::Newline => CommandView::Newline,
            Command::Envset(key, value) => CommandView::Envset(key@, value@),
            Command::Cd(path) => CommandView::Cd(path@),
            Command::Putfile(path, body) => CommandView::Putfile(path@, body@),
            Command::Mkdir(path) => CommandView::Mkdir(path@),
            Command::Copyfile(from, to) => CommandView::Copyfile(from@, to@),
            Command::Movefile(from, to) => CommandView::Movefile(from@, to@),
            Command::Removefile(path) => CommandView::Removefile(path@),
        }
    }
}

impl Condition {
    /// The mathematical tree that this condition stands for.
    pub open spec fn model(self) -> ConditionView
        decreases self,
    {
        match self {
            Condition::Exists(path) => ConditionView::Exists(path@),
            Condition::IsDirectory(path) => ConditionView::IsDirectory(path@),
            Condition::IsFile(path) => ConditionView::IsFile(path@),
            Condition::CmdCond(command) => ConditionView::CmdCond(command@),
            Condition::And(a, b) => ConditionView::And(Box::new(a.model()), Box::new(b.model())),
            Condition::Or(a, b) => ConditionView::Or(Box::new(a.model()), Box::new(b.model())),
            Condition::Not(a) => ConditionView::Not(Box::new(a.model())),
        }
    }
}

impl View for Condition {
    type V = ConditionView;

    open spec fn view(&self) -> ConditionView {
        self.model()
    }
}

/// The views of a list of options, in order.
pub open spec fn options_view(options: Seq<CommandOption>) -> Seq<CommandOptionView> {
    Seq::new(options.len(), |i: int| options[i]@)
}

impl Statement {
    /// The mathematical tree that this statement stands for.
    pub open spec fn model(self) -> StatementView
        decreases self,
    {
        match self {
            Statement::Statements(children) => StatementView::Statements(
                Seq::new(
                    children@.len(),
                    |i: int|
                        if 0 <= i < children@.len() {
                            children@[i].model()
                        } else {
                            StatementView::Noop
                        },
                ),
            ),
            Statement::Fold(name, body) => StatementView::Fold(name@, Box::new(body.model())),
            Statement::Cmd(command, options) => StatementView::Cmd(
                command@,
                options_view(options@),
            ),
            Statement::If(test, body, otherwise) => StatementView::If(
                test@,
                Box::new(body.model()),
                Box::new(otherwise.model()),
            ),
            Statement::Noop => StatementView::Noop,
        }
    }
}

impl View for Statement {
    type V = StatementView;

    open spec fn view(&self) -> StatementView {
        self.model()
    }
}

impl Clone for CommandOption {
    fn clone(&self) -> (copy: Self)
        ensures
            copy@ == self@,
    {
        match self {
            CommandOption::EchoOption => CommandOption::EchoOption,
            CommandOption::AssertOption => CommandOption::AssertOption,
            CommandOption::DisplayOption(text) => CommandOption::DisplayOption(text.clone()),
        }
    }
}

/// A copy of a list of options.
pub fn clone_options(options: &Vec<CommandOption>) -> (copy: Vec<CommandOption>)
    ensures
        options_view(copy@) == options_view(options@),
{
    let mut copy: Vec<CommandOption> = Vec::new();
    for i in 0..options.len()
        invariant
            copy@.len() == i,
            forall|j: int| 0 <= j < i ==> copy@[j]@ == options@[j]@,
    {
        copy.push(options[i].clone());
    }
    copy
}

impl Clone for Command {
    fn clone(&self) -> (copy: Self)
        ensures
            copy@ == self@,
    {
        match self {
            Command::Raw(text) => Command::Raw(text.clone()),
            Command::Echo(text) => Command::Echo(text.clone()),
            Command::Newline => Command::Newline,
            Command::Envset(key, value) => Command::Envset(key.clone(), value.clone()),
            Command::Cd(path) => Command::Cd(path.clone()),
            Command::Putfile(path, body) => Command::Putfile(path.clone(), body.clone()),
            Command::Mkdir(path) => Command::Mkdir(path.clone()),
            Command::Copyfile(from, to) => Command::Copyfile(from.clone(), to.clone()),
            Command::Movefile(from, to) => Command::Movefile(from.clone(), to.clone()),
            Command::Removefile(path) => Command::Removefile(path.clone()),
        }
    }
}

impl Clone for Condition {
    fn clone(&self) -> (copy: Self)
        ensures
            copy@ == self@,
        decreases self,
    {
        match self {
            Condition::Exists(path) => Condition::Exists(path.clone()),
            Condition::IsDirectory(path) => Condition::IsDirectory(path.clone()),
            Condition::IsFile(path) => Condition::IsFile(path.clone()),
            Condition::CmdCond(command) => Condition::CmdCond(command.clone()),
            Condition::And(a, b) => Condition::And(
                Box::new((&**a).clone()),
                Box::new((&**b).clone()),
            ),
            Condition::Or(a, b) => Condition::Or(
                Box::new((&**a).clone()),
                Box::new((&**b).clone()),
            ),
            Condition::Not(a) => Condition::Not(Box::new((&**a).clone())),
        }
    }
}

impl Clone for Statement {
    fn clone(&self) -> (copy: Self)
        ensures
            copy@ == self@,
        decreases self,
    {
        match self {
            Statement::Statements(children) => {
                let mut copies: Vec<Statement> = Vec::new();
                for i in 0..children.len()
                    invariant
                        *self == Statement::Statements(*children),
                        copies@.len() == i,
                        forall|j: int| 0 <= j < i ==> copies@[j]@ == children@[j]@,
                {
                    assert(decreases_to!(self => self->Statements_0@[i as int]));
                    copies.push(children[i].clone());
                }
                let copy = Statement::Statements(copies);
                assert(copy@->Statements_0 =~= self@->Statements_0);
                copy
            },
            Statement::Fold(name, body) => Statement::Fold(
                name.clone(),
                Box::new((&**body).clone()),
            ),
            Statement::Cmd(command, options) => Statement::Cmd(
                command.clone(),
                clone_options(options),
            ),
            Statement::If(test, body, otherwise) => Statement::If(
                test.clone(),
                Box::new((&**body).clone()),
                Box::new((&**otherwise).clone()),
            ),
            Statement::Noop => Statement::Noop,
        }
    }
}

impl Statement {
    /// Whether this node is the statement that does nothing.
    pub fn is_noop(&self) -> (noop: bool)
        ensures
            noop == (self@ is Noop),
    {
        match *self {
            Statement::Noop => true,
            _ => false,
        }
    }
}

impl Condition {
    /// The condition that holds exactly when `self` does not.
    ///
    /// The result wraps `self` as it is: negating twice gives a tree two
    /// levels deeper, never the tree one started from.
    pub fn not(&self) -> (negated: Condition)
        ensures
            negated@ == ConditionView::Not(Box::new(self@)),
    {
        Condition::Not(Box::new(self.clone()))
    }
}

/// No options.
pub fn no_options() -> (options: Vec<CommandOption>)
    ensures
        options_view(options@) == Seq::<CommandOptionView>::empty(),
{
    let options: Vec<CommandOption> = Vec::new();
    options
}

/// The one option `EchoOption`.
pub fn echoed() -> (options: Vec<CommandOption>)
    ensures
        options_view(options@) == seq![CommandOptionView::EchoOption],
{
    let mut options: Vec<CommandOption> = Vec::new();
    options.push(CommandOption::EchoOption);
    options
}

/// The options `EchoOption` and `AssertOption`.
pub fn echoed_and_asserted() -> (options: Vec<CommandOption>)
    ensures
        options_view(options@) == seq![
            CommandOptionView::EchoOption,
            CommandOptionView::AssertOption,
        ],
{
    let mut options: Vec<CommandOption> = Vec::new();
    options.push(CommandOption::EchoOption);
    options.push(CommandOption::AssertOption);
    options
}

/// The views of a list of statements, in order.
pub open spec fn statements_view(children: Seq<Statement>) -> Seq<StatementView> {
    Seq::new(children.len(), |i: int| children[i]@)
}

/// Whether `name` can stand on the marker line of a fold.
pub fn is_valid_fold_name(name: &str) -> (valid: bool)
    ensures
        valid == valid_fold_name(name@),
{
    if name.is_empty() {
        return false;
    }
    let chars = name.chars();
    for ch in it: chars
        invariant
            it.seq() == name@,
            forall|i: int| 0 <= i < it.index() ==> name@[i] != '\n',
    {
        if ch == '\n' {
            return false;
        }
    }
    true
}

impl Statement {
    /// Whether every fold of the tree has a name that its marker lines can
    /// carry.
    pub fn is_well_formed(&self) -> (well_formed: bool)
        ensures
            well_formed == self@.well_formed(),
        decreases self,
    {
        match self {
            Statement::Statements(children) => {
                let ghost views = self@->Statements_0;
                for i in 0..children.len()
                    invariant
                        *self == Statement::Statements(*children),
                        views == self@->Statements_0,
                        forall|j: int| 0 <= j < i ==> (#[trigger] views[j]).well_formed(),
                {
                    if !children[i].is_well_formed() {
                        assert(!views[i as int].well_formed());
                        return false;
                    }
                }
                true
            },
            Statement::Fold(name, body) => is_valid_fold_name(name.as_str())
                && body.is_well_formed(),
            Statement::Cmd(_, _) => true,
            Statement::If(_, body, otherwise) => body.is_well_formed()
                && otherwise.is_well_formed(),
            Statement::Noop => true,
        }
    }

    /// The fold named `name` around `body`; nothing where the name is
    /// empty or holds a newline.
    pub fn fold(name: String, body: Statement) -> (statement: Option<Statement>)
        ensures
            match statement {
                Some(statement) => valid_fold_name(name@) && statement@ == StatementView::Fold(
                    name@,
                    Box::new(body@),
                ),
                None => !valid_fold_name(name@),
            },
    {
        if is_valid_fold_name(name.as_str()) {
            Some(Statement::Fold(name, Box::new(body)))
        } else {
            None
        }
    }

    /// The statements of `children`, run in order.
    pub fn block(children: Vec<Statement>) -> (statement: Statement)
        ensures
            statement@ == StatementView::Statements(statements_view(children@)),
            statement@.well_formed() <==> forall|i: int|
                0 <= i < children@.len() ==> (#[trigger] children@[i])@.well_formed(),
    {
        let statement = Statement::Statements(children);
        assert(statement@->Statements_0 =~= statements_view(children@));
        proof {
            let views = statement@->Statements_0;
            if statement@.well_formed() {
                assert forall|i: int| 0 <= i < children@.len() implies (
                #[trigger] children@[i])@.well_formed() by {
                    assert(views[i].well_formed());
                }
            }
        }
        statement
    }

    /// One action.
    pub fn cmd(command: Command, options: Vec<CommandOption>) -> (statement: Statement)
        ensures
            statement@ == StatementView::Cmd(command@, options_view(options@)),
            statement@.well_formed(),
    {
        Statement::Cmd(command, options)
    }

    /// The action that runs `text` as it is.
    pub fn raw(text: String, options: Vec<CommandOption>) -> (statement: Statement)
        ensures
            statement@ == StatementView::Cmd(CommandView::Raw(text@), options_view(options@)),
            statement@.well_formed(),
    {
        Statement::Cmd(Command::Raw(text), options)
    }

    /// The action that gives the variable `key` the value `value`.
    pub fn set(key: &str, value: &str) -> (statement: Statement)
        ensures
            statement@ == StatementView::Cmd(
                CommandView::Envset(key@, value@),
                Seq::<CommandOptionView>::empty(),
            ),
            statement@.well_formed(),
    {
        let command = Command::Envset(String::from_str(key), String::from_str(value));
        Statement::Cmd(command, no_options())
    }

    /// The conditional that runs `body` where `test` holds, and nothing
    /// where it does not.
    pub fn when(test: Condition, body: Statement) -> (statement: Statement)
        ensures
            statement@ == StatementView::If(test@, Box::new(body@), Box::new(StatementView::Noop)),
            statement@.well_formed() <==> body@.well_formed(),
    {
        assert(Statement::Noop@ == StatementView::Noop);
        assert(StatementView::Noop.well_formed());
        Statement::If(test, Box::new(body), Box::new(Statement::Noop))
    }

    /// The conditional that runs `body` where `test` holds, and `otherwise`
    /// where it does not.
    pub fn if_else(test: Condition, body: Statement, otherwise: Statement) -> (statement: Statement)
        ensures
            statement@ == StatementView::If(test@, Box::new(body@), Box::new(otherwise@)),
            statement@.well_formed() <==> body@.well_formed() && otherwise@.well_formed(),
    {
        Statement::If(test, Box::new(body), Box::new(otherwise))
    }
}

} // verus!
