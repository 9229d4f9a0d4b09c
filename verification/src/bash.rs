//! Rendering of the statement tree as shell text.

use rustc_serialize::base64::{ToBase64, STANDARD};
use vstd::prelude::*;
use vstd::string::StringExecFns;
use crate::ast::{
    Command, CommandOption, CommandOptionView, CommandView, Condition, ConditionView, Statement,
    StatementView, options_view, valid_fold_name,
};
use crate::text::{
    contains_text, join_lines, lemma_join_lines_extend_last, lemma_join_lines_of_lines,
    lemma_join_lines_push, lemma_lines_around_newline, lemma_lines_of_join_lines,
    lemma_lines_shape, lines, newline_free, occurs_at, push_char, starts_with,
};

verus! {

broadcast use vstd::string::group_string_axioms;

/// Characters that a shell reads as themselves outside of any quoting.
pub open spec fn is_safe_char(c: char) -> bool {
    ||| 'A' <= c <= 'Z'
    ||| 'a' <= c <= 'z'
    ||| '0' <= c <= '9'
    ||| c == '_'
    ||| c == '-'
    ||| c == '.'
    ||| c == ','
    ||| c == ':'
    ||| c == '/'
    ||| c == '@'
}

/// The escaped form of one character: itself where it is safe, a quoted
/// newline for a newline, and the character behind a backslash otherwise.
pub open spec fn escape_char(c: char) -> Seq<char> {
    if is_safe_char(c) {
        seq![c]
    } else if c == '\n' {
        seq!['\'', '\n', '\'']
    } else {
        seq!['\\', c]
    }
}

/// The escaped forms of the characters of `text`, one after the other.
pub open spec fn escape_chars(text: Seq<char>) -> Seq<char>
    decreases text.len(),
{
    if text.len() == 0 {
        Seq::empty()
    } else {
        escape_chars(text.drop_last()) + escape_char(text.last())
    }
}

/// The shell token that stands for `text`: a pair of quotes for the empty
/// text, else the escaped characters.
pub open spec fn escape(text: Seq<char>) -> Seq<char> {
    if text.len() == 0 {
        seq!['\'', '\'']
    } else {
        escape_chars(text)
    }
}

/// The number of characters of `text` before its first single quote.
pub open spec fn quoted_len(text: Seq<char>) -> nat
    decreases text.len(),
{
    if text.len() == 0 || text[0] == '\'' {
        0
    } else {
        1 + quoted_len(text.skip(1))
    }
}

/// Whether a shell ends a word at `c` where it stands unquoted.
pub open spec fn is_blank(c: char) -> bool {
    c == ' ' || c == '\t' || c == '\n'
}

/// The characters of the word that is being read, if one is.
pub open spec fn so_far(word: Option<Seq<char>>) -> Seq<char> {
    match word {
        Some(characters) => characters,
        None => Seq::empty(),
    }
}

/// The word that is being read, if one is, as a list of words.
pub open spec fn finished(word: Option<Seq<char>>) -> Seq<Seq<char>> {
    match word {
        Some(characters) => seq![characters],
        None => Seq::empty(),
    }
}

/// The words that a shell reads from `input`, behind the word that is
/// being read, if one is.
///
/// An unquoted blank ends a word. A backslash makes the next character
/// stand for itself, except that a backslash and a newline together read
/// as nothing. Between single quotes every character stands for itself.
/// Any other character has to be a safe one. An input that holds anything
/// else (an unquoted character that is not safe, a quote that is not
/// closed, a backslash at the end) has no reading here.
pub open spec fn read_words(input: Seq<char>, word: Option<Seq<char>>) -> Option<Seq<Seq<char>>>
    decreases input.len(),
{
    if input.len() == 0 {
        Some(finished(word))
    } else if is_blank(input[0]) {
        match read_words(input.skip(1), None) {
            Some(rest) => Some(finished(word) + rest),
            None => None,
        }
    } else if input[0] == '\\' {
        if input.len() == 1 {
            None
        } else if input[1] == '\n' {
            read_words(input.skip(2), word)
        } else {
            read_words(input.skip(2), Some(so_far(word).push(input[1])))
        }
    } else if input[0] == '\'' {
        let n = quoted_len(input.skip(1)) as int;
        if n + 2 <= input.len() {
            read_words(input.skip(n + 2), Some(so_far(word) + input.subrange(1, 1 + n)))
        } else {
            None
        }
    } else if is_safe_char(input[0]) {
        read_words(input.skip(1), Some(so_far(word).push(input[0])))
    } else {
        None
    }
}

/// The words that a shell reads from `input`.
pub open spec fn shell_words(input: Seq<char>) -> Option<Seq<Seq<char>>> {
    read_words(input, None)
}

/// Escaping goes through concatenation.
pub proof fn lemma_escape_chars_concat(a: Seq<char>, b: Seq<char>)
    ensures
        escape_chars(a + b) == escape_chars(a) + escape_chars(b),
    decreases b.len(),
{
    if b.len() > 0 {
        lemma_escape_chars_concat(a, b.drop_last());
        assert((a + b).drop_last() =~= a + b.drop_last());
    }
}

/// A shell reads one escaped character, in front of anything, as that
/// character of the word that it is reading.
pub proof fn lemma_read_escaped_char(c: char, rest: Seq<char>, word: Option<Seq<char>>)
    ensures
        read_words(escape_char(c) + rest, word) == read_words(
            rest,
            Some(so_far(word).push(c)),
        ),
{
    let input = escape_char(c) + rest;
    if is_safe_char(c) {
        assert(input.skip(1) =~= rest);
    } else if c == '\n' {
        let inner = input.skip(1);
        assert(quoted_len(inner.skip(1)) == 0);
        assert(so_far(word) + input.subrange(1, 2) =~= so_far(word).push(c));
        assert(input.skip(3) =~= rest);
    } else {
        assert(input.skip(2) =~= rest);
    }
}

/// A shell reads the escaped characters of a text as the rest of the word
/// that it is reading, and nothing more.
pub proof fn lemma_read_escaped_chars(text: Seq<char>, word: Option<Seq<char>>)
    requires
        text.len() > 0,
    ensures
        read_words(escape_chars(text), word) == Some(seq![so_far(word) + text]),
    decreases text.len(),
{
    let first = seq![text[0]];
    let rest = text.skip(1);
    let longer = Some(so_far(word).push(text[0]));
    assert(first + rest =~= text);
    lemma_escape_chars_concat(first, rest);
    assert(escape_chars(first.drop_last()) =~= Seq::<char>::empty());
    lemma_read_escaped_char(text[0], escape_chars(rest), word);
    if rest.len() == 0 {
        assert(so_far(longer) =~= so_far(word) + text);
    } else {
        lemma_read_escaped_chars(rest, longer);
        assert(so_far(longer) + rest =~= so_far(word) + text);
    }
}

/// Escaping loses nothing and lets nothing out: a shell reads the token
/// of a text as one word, and the word is the text, whatever the text
/// holds.
pub proof fn lemma_escape_round_trip(text: Seq<char>)
    ensures
        shell_words(escape(text)) == Some(seq![text]),
{
    if text.len() == 0 {
        let token = escape(text);
        assert(so_far(None) + token.subrange(1, 1) =~= text);
        assert(read_words(token.skip(2), Some(text)) == Some(seq![text]));
    } else {
        lemma_read_escaped_chars(text, None);
    }
}

/// Whether `c` may stand unescaped in a shell token.
fn is_safe(c: char) -> (safe: bool)
    ensures
        safe == is_safe_char(c),
{
    (c >= 'A' && c <= 'Z') || (c >= 'a' && c <= 'z') || (c >= '0' && c <= '9') || c == '_'
        || c == '-' || c == '.' || c == ',' || c == ':' || c == '/' || c == '@'
}

/// Turns any text into a token that a shell reads back as that text, as
/// one word.
pub fn shellescape(input: &str) -> (output: String)
    ensures
        output@ == escape(input@),
{
    let mut output = String::new();
    if input.is_empty() {
        push_char(&mut output, '\'');
        push_char(&mut output, '\'');
        return output;
    }
    let chars = input.chars();
    for ch in it: chars
        invariant
            it.seq() == input@,
            output@ == escape_chars(input@.take(it.index())),
    {
        assert(input@.take(it.index() + 1).drop_last() =~= input@.take(it.index()));
        if is_safe(ch) {
            push_char(&mut output, ch);
        } else if ch == '\n' {
            push_char(&mut output, '\'');
            push_char(&mut output, '\n');
            push_char(&mut output, '\'');
        } else {
            push_char(&mut output, '\\');
            push_char(&mut output, ch);
        }
    }
    assert(input@.take(input@.len() as int) =~= input@);
    output
}

/// A line behind two spaces.
pub open spec fn indent_line(line: Seq<char>) -> Seq<char> {
    seq![' ', ' '] + line
}

/// The text with two spaces in front of each of its lines.
pub open spec fn indent_text(text: Seq<char>) -> Seq<char> {
    join_lines(lines(text).map_values(|line: Seq<char>| indent_line(line)))
}

/// What one more character adds to an indented text.
pub proof fn lemma_indent_text_push(text: Seq<char>, c: char)
    ensures
        indent_text(text.push(c)) == if c == '\n' {
            indent_text(text) + seq!['\n', ' ', ' ']
        } else {
            indent_text(text).push(c)
        },
{
    let f = |line: Seq<char>| indent_line(line);
    let before = lines(text);
    let after = lines(text.push(c));
    lemma_lines_shape(text);
    assert(text.push(c).drop_last() =~= text);
    if c == '\n' {
        assert(after.map_values(f) =~= before.map_values(f).push(indent_line(Seq::empty())));
        lemma_join_lines_push(before.map_values(f), indent_line(Seq::empty()));
        assert(indent_text(text.push(c)) =~= indent_text(text) + seq!['\n', ' ', ' ']);
    } else {
        let shifted = before.map_values(f);
        assert(after.map_values(f) =~= shifted.drop_last().push(shifted.last().push(c)));
        lemma_join_lines_extend_last(shifted, c);
    }
}

/// Indenting keeps the lines of a text, one for one, and puts exactly two
/// spaces in front of each: what follows the two spaces is the line as it
/// was.
pub proof fn lemma_indent_keeps_lines(text: Seq<char>)
    ensures
        lines(indent_text(text)).len() == lines(text).len(),
        forall|i: int|
            0 <= i < lines(text).len() ==> #[trigger] lines(indent_text(text))[i] == seq![
                ' ',
                ' ',
            ] + lines(text)[i],
{
    let f = |line: Seq<char>| indent_line(line);
    let shifted = lines(text).map_values(f);
    lemma_lines_shape(text);
    assert(forall|i: int| 0 <= i < shifted.len() ==> newline_free(#[trigger] shifted[i]));
    lemma_lines_of_join_lines(shifted);
}

/// Indenting loses nothing: the lines of the indented text, each without
/// its first two characters, join to the text as it was.
pub proof fn lemma_indent_loses_nothing(text: Seq<char>)
    ensures
        join_lines(lines(indent_text(text)).map_values(|line: Seq<char>| line.skip(2))) == text,
{
    lemma_indent_keeps_lines(text);
    lemma_join_lines_of_lines(text);
    let stripped = lines(indent_text(text)).map_values(|line: Seq<char>| line.skip(2));
    assert forall|i: int| 0 <= i < lines(text).len() implies stripped[i] == lines(text)[i] by {
        assert((seq![' ', ' '] + lines(text)[i]).skip(2) =~= lines(text)[i]);
    }
    assert(stripped =~= lines(text));
}

/// Puts two spaces in front of every line of `input`.
pub fn indent(input: &str) -> (output: String)
    ensures
        output@ == indent_text(input@),
{
    let mut output = String::new();
    push_char(&mut output, ' ');
    push_char(&mut output, ' ');
    assert(output@ =~= indent_text(Seq::empty())) by {
        let f = |line: Seq<char>| indent_line(line);
        assert(lines(Seq::empty()).map_values(f) =~= seq![indent_line(Seq::empty())]);
    }
    let chars = input.chars();
    for ch in it: chars
        invariant
            it.seq() == input@,
            output@ == indent_text(input@.take(it.index())),
    {
        assert(input@.take(it.index() + 1) =~= input@.take(it.index()).push(ch));
        proof {
            lemma_indent_text_push(input@.take(it.index()), ch);
        }
        if ch == '\n' {
            push_char(&mut output, '\n');
            push_char(&mut output, ' ');
            push_char(&mut output, ' ');
            assert(output@ =~= indent_text(input@.take(it.index())) + seq!['\n', ' ', ' ']);
        } else {
            push_char(&mut output, ch);
        }
    }
    assert(input@.take(input@.len() as int) =~= input@);
    output
}

/// The base64 encoding of `bytes`: standard alphabet, padded, on one line.
pub uninterp spec fn base64_standard(bytes: Seq<u8>) -> Seq<char>;

/// Encodes bytes in base64.
///
/// Stands for `to_base64` of `rustc_serialize::base64::ToBase64` on a byte
/// slice, with the configuration `STANDARD`. The encoder reads nothing but
/// the bytes and the configuration, so its result is a function of the
/// bytes; the contract gives that function its name and claims no more.
#[verifier::external_body]
fn encode_base64(bytes: &Vec<u8>) -> (encoded: String)
    ensures
        encoded@ == base64_standard(bytes@),
{
    bytes.as_slice().to_base64(STANDARD)
}

/// The command that writes a file from its base64 encoding.
pub open spec fn putfile_text(path: Seq<char>, encoded: Seq<char>) -> Seq<char> {
    "base64 --decode > "@ + escape(path) + " <<<"@ + escape(encoded)
}

/// The shell text of a command.
pub open spec fn command_text(command: CommandView) -> Seq<char> {
    match command {
        CommandView::Raw(text) => text,
        CommandView::Echo(text) => "echo "@ + text,
        CommandView::Newline => "echo"@,
        CommandView::Envset(key, value) => "export "@ + key + "="@ + escape(value),
        CommandView::Cd(path) => "cd "@ + escape(path),
        CommandView::Putfile(path, body) => putfile_text(path, base64_standard(body)),
        CommandView::Mkdir(path) => "mkdir -p "@ + escape(path),
        CommandView::Copyfile(from, to) => "cp -r "@ + escape(from) + " "@ + escape(to),
        CommandView::Movefile(from, to) => "mv "@ + escape(from) + " "@ + escape(to),
        CommandView::Removefile(path) => "rm -rf "@ + escape(path),
    }
}

/// The shell text of a condition.
pub open spec fn condition_text(condition: ConditionView) -> Seq<char>
    decreases condition,
{
    match condition {
        ConditionView::Exists(path) => "[[ -e "@ + escape(path) + " ]]"@,
        ConditionView::IsDirectory(path) => "[[ -d "@ + escape(path) + " ]]"@,
        ConditionView::IsFile(path) => "[[ -f "@ + escape(path) + " ]]"@,
        ConditionView::CmdCond(command) => command_text(command),
        ConditionView::And(a, b) => "{ "@ + condition_text(*a) + " && "@ + condition_text(*b)
            + "; }"@,
        ConditionView::Or(a, b) => "{ "@ + condition_text(*a) + " || "@ + condition_text(*b)
            + "; }"@,
        ConditionView::Not(a) => "{ ! "@ + condition_text(*a) + "; }"@,
    }
}

/// The text of the last `DisplayOption` among the options, if there is
/// one: where several are given, a later one replaces an earlier one.
pub open spec fn last_display(options: Seq<CommandOptionView>) -> Option<Seq<char>>
    decreases options.len(),
{
    if options.len() == 0 {
        None
    } else {
        match options.last() {
            CommandOptionView::DisplayOption(text) => Some(text),
            _ => last_display(options.drop_last()),
        }
    }
}

/// The flags of an action. They come in one order whatever the order of
/// the options, each at most once: echo, display, assert.
pub open spec fn options_text(options: Seq<CommandOptionView>) -> Seq<char> {
    (if options.contains(CommandOptionView::EchoOption) {
        " --echo"@
    } else {
        Seq::empty()
    }) + (match last_display(options) {
        Some(text) => " --display="@ + escape(text),
        None => Seq::empty(),
    }) + (if options.contains(CommandOptionView::AssertOption) {
        " --assert"@
    } else {
        Seq::empty()
    })
}

/// The opening of a conditional: its test and its indented body.
pub open spec fn if_head(test: ConditionView, body: StatementView) -> Seq<char>
    decreases body, 2nat,
{
    "if "@ + condition_text(test) + "; then\n"@ + indent_text(statement_text(body))
}

/// The shell text of a statement.
pub open spec fn statement_text(statement: StatementView) -> Seq<char>
    decreases statement, 1nat,
{
    match statement {
        StatementView::Statements(children) => join_lines(children_texts(children)),
        StatementView::Fold(name, body) => "travis_fold start "@ + name + "\n"@ + statement_text(
            *body,
        ) + "\ntravis_fold end "@ + name,
        StatementView::Cmd(command, options) => "travis_cmd "@ + escape(command_text(command))
            + options_text(options),
        StatementView::If(test, body, otherwise) => match *otherwise {
            StatementView::Noop => if_head(test, *body) + "\nfi"@,
            StatementView::If(_, _, _) => if_head(test, *body) + "\nel"@ + indent_text(
                statement_text(*otherwise),
            ),
            _ => if_head(test, *body) + "\nelse\n"@ + indent_text(statement_text(*otherwise))
                + "\nfi"@,
        },
        StatementView::Noop => Seq::empty(),
    }
}

/// The texts of the children that are not `Noop`, in order.
pub open spec fn children_texts(children: Seq<StatementView>) -> Seq<Seq<char>>
    decreases children, 0nat,
{
    if children.len() == 0 {
        Seq::empty()
    } else {
        let front = children_texts(children.drop_last());
        if children.last() is Noop {
            front
        } else {
            front.push(statement_text(children.last()))
        }
    }
}

/// What can be rendered as shell text.
pub trait ToBash {
    /// Whether the value keeps what the rendering relies on.
    spec fn renderable(&self) -> bool;

    /// The shell text of the value.
    spec fn bash_text(&self) -> Seq<char>;

    /// Renders the value.
    fn to_bash(&self) -> (text: String)
        requires
            self.renderable(),
        ensures
            text@ == self.bash_text(),
    ;
}

/// The text of a file-writing command, from the path and the base64
/// encoding of the body.
pub fn putfile_command(path: &str, encoded: &str) -> (text: String)
    ensures
        text@ == putfile_text(path@, encoded@),
{
    let mut text = String::from_str("base64 --decode > ");
    text.append(shellescape(path).as_str());
    text.append(" <<<");
    text.append(shellescape(encoded).as_str());
    text
}

/// A keyword and the escaped form of its one argument.
fn keyword_and_path(keyword: &str, path: &str) -> (text: String)
    ensures
        text@ == keyword@ + escape(path@),
{
    let mut text = String::from_str(keyword);
    text.append(shellescape(path).as_str());
    text
}

/// A keyword and the escaped forms of its two arguments.
fn keyword_and_paths(keyword: &str, from: &str, to: &str) -> (text: String)
    ensures
        text@ == keyword@ + escape(from@) + " "@ + escape(to@),
{
    let mut text = String::from_str(keyword);
    text.append(shellescape(from).as_str());
    text.append(" ");
    text.append(shellescape(to).as_str());
    text
}

impl ToBash for Command {
    open spec fn renderable(&self) -> bool {
        true
    }

    open spec fn bash_text(&self) -> Seq<char> {
        command_text(self@)
    }

    fn to_bash(&self) -> (text: String) {
        match self {
            Command::Raw(text) => text.clone(),
            Command::Echo(text) => {
                let mut out = String::from_str("echo ");
                out.append(text.as_str());
                out
            },
            Command::Newline => String::from_str("echo"),
            Command::Envset(key, value) => {
                let mut out = String::from_str("export ");
                out.append(key.as_str());
                out.append("=");
                out.append(shellescape(value.as_str()).as_str());
                out
            },
            Command::Cd(path) => keyword_and_path("cd ", path.as_str()),
            Command::Putfile(path, body) => {
                let encoded = encode_base64(body);
                putfile_command(path.as_str(), encoded.as_str())
            },
            Command::Mkdir(path) => keyword_and_path("mkdir -p ", path.as_str()),
            Command::Copyfile(from, to) => keyword_and_paths("cp -r ", from.as_str(), to.as_str()),
            Command::Movefile(from, to) => keyword_and_paths("mv ", from.as_str(), to.as_str()),
            Command::Removefile(path) => keyword_and_path("rm -rf ", path.as_str()),
        }
    }
}

/// A path test between double brackets.
fn path_test(opening: &str, path: &str) -> (text: String)
    ensures
        text@ == opening@ + escape(path@) + " ]]"@,
{
    let mut text = String::from_str(opening);
    text.append(shellescape(path).as_str());
    text.append(" ]]");
    text
}

impl Condition {
    /// Renders the condition.
    fn render(&self) -> (text: String)
        ensures
            text@ == condition_text(self@),
        decreases self,
    {
        match self {
            Condition::Exists(path) => path_test("[[ -e ", path.as_str()),
            Condition::IsDirectory(path) => path_test("[[ -d ", path.as_str()),
            Condition::IsFile(path) => path_test("[[ -f ", path.as_str()),
            Condition::CmdCond(command) => command.to_bash(),
            Condition::And(a, b) => {
                let mut out = String::from_str("{ ");
                out.append(a.render().as_str());
                out.append(" && ");
                out.append(b.render().as_str());
                out.append("; }");
                out
            },
            Condition::Or(a, b) => {
                let mut out = String::from_str("{ ");
                out.append(a.render().as_str());
                out.append(" || ");
                out.append(b.render().as_str());
                out.append("; }");
                out
            },
            Condition::Not(a) => {
                let mut out = String::from_str("{ ! ");
                out.append(a.render().as_str());
                out.append("; }");
                out
            },
        }
    }
}

impl ToBash for Condition {
    open spec fn renderable(&self) -> bool {
        true
    }

    open spec fn bash_text(&self) -> Seq<char> {
        condition_text(self@)
    }

    fn to_bash(&self) -> (text: String) {
        self.render()
    }
}

/// Appends the flags of the options to `out`.
fn push_options(out: &mut String, options: &Vec<CommandOption>)
    ensures
        final(out)@ == old(out)@ + options_text(options_view(options@)),
{
    let ghost views = options_view(options@);
    let mut echo = false;
    let mut assert_flag = false;
    let mut display: Option<&String> = None;
    for i in 0..options.len()
        invariant
            views == options_view(options@),
            echo == views.take(i as int).contains(CommandOptionView::EchoOption),
            assert_flag == views.take(i as int).contains(CommandOptionView::AssertOption),
            match display {
                Some(text) => last_display(views.take(i as int)) == Some(text@),
                None => last_display(views.take(i as int)) is None,
            },
    {
        let ghost before = views.take(i as int);
        let ghost after = views.take(i + 1);
        assert(after.drop_last() =~= before);
        assert(after.last() == options@[i as int]@);
        assert forall|x: CommandOptionView| after.contains(x) <==> before.contains(x)
            || after.last() == x by {
            if before.contains(x) {
                let k = choose|k: int| 0 <= k < before.len() && before[k] == x;
                assert(after[k] == x);
            }
            if after.last() == x {
                assert(after[i as int] == x);
            }
        }
        match &options[i] {
            CommandOption::EchoOption => {
                echo = true;
            },
            CommandOption::AssertOption => {
                assert_flag = true;
            },
            CommandOption::DisplayOption(text) => {
                display = Some(text);
            },
        }
    }
    assert(views.take(options@.len() as int) =~= views);
    let ghost start = out@;
    if echo {
        out.append(" --echo");
    }
    match display {
        Some(text) => {
            out.append(" --display=");
            out.append(shellescape(text.as_str()).as_str());
        },
        None => {},
    }
    if assert_flag {
        out.append(" --assert");
    }
    assert(out@ =~= start + options_text(views));
}

impl Statement {
    /// Renders the statement.
    fn render(&self) -> (text: String)
        requires
            self@.well_formed(),
        ensures
            text@ == statement_text(self@),
        decreases self,
    {
        match self {
            Statement::Statements(children) => {
                let ghost views = self@->Statements_0;
                let mut out = String::new();
                let mut first = true;
                for i in 0..children.len()
                    invariant
                        *self == Statement::Statements(*children),
                        self@.well_formed(),
                        views == self@->Statements_0,
                        first == (children_texts(views.take(i as int)).len() == 0),
                        out@ == join_lines(children_texts(views.take(i as int))),
                {
                    let child = &children[i];
                    assert(views.take(i + 1).drop_last() =~= views.take(i as int));
                    assert(views[i as int].well_formed());
                    if !child.is_noop() {
                        let piece = child.render();
                        proof {
                            lemma_join_lines_push(children_texts(views.take(i as int)), piece@);
                        }
                        if first {
                            first = false;
                        } else {
                            push_char(&mut out, '\n');
                        }
                        out.append(piece.as_str());
                    }
                }
                assert(views.take(children@.len() as int) =~= views);
                out
            },
            Statement::Fold(name, body) => {
                let mut out = String::from_str("travis_fold start ");
                out.append(name.as_str());
                out.append("\n");
                out.append(body.render().as_str());
                out.append("\ntravis_fold end ");
                out.append(name.as_str());
                out
            },
            Statement::Cmd(command, options) => {
                let mut out = String::from_str("travis_cmd ");
                out.append(shellescape(command.to_bash().as_str()).as_str());
                push_options(&mut out, options);
                out
            },
            Statement::If(test, body, otherwise) => {
                let mut out = String::from_str("if ");
                out.append(test.render().as_str());
                out.append("; then\n");
                out.append(indent(body.render().as_str()).as_str());
                assert(out@ == if_head(test@, body@));
                match &**otherwise {
                    Statement::Noop => {
                        out.append("\nfi");
                    },
                    Statement::If(_, _, _) => {
                        out.append("\nel");
                        out.append(indent(otherwise.render().as_str()).as_str());
                    },
                    _ => {
                        out.append("\nelse\n");
                        out.append(indent(otherwise.render().as_str()).as_str());
                        out.append("\nfi");
                    },
                }
                out
            },
            Statement::Noop => String::new(),
        }
    }
}

impl ToBash for Statement {
    open spec fn renderable(&self) -> bool {
        self@.well_formed()
    }

    open spec fn bash_text(&self) -> Seq<char> {
        statement_text(self@)
    }

    fn to_bash(&self) -> (text: String) {
        self.render()
    }
}

/// The children that are not `Noop`, in order.
pub open spec fn without_noops(children: Seq<StatementView>) -> Seq<StatementView> {
    children.filter(|child: StatementView| !(child is Noop))
}

/// The texts of a list of children are those of its members that are not
/// `Noop`.
pub proof fn lemma_children_texts_without_noops(children: Seq<StatementView>)
    ensures
        children_texts(children) == children_texts(without_noops(children)),
    decreases children.len(),
{
    reveal(Seq::filter);
    if children.len() > 0 {
        let front = children.drop_last();
        let last = children.last();
        lemma_children_texts_without_noops(front);
        if !(last is Noop) {
            let kept = without_noops(front);
            assert(kept.push(last).drop_last() =~= kept);
        }
    }
}

/// A sequence renders as the sequence without its `Noop` members does,
/// wherever they stand in it.
pub proof fn lemma_sequence_ignores_noops(children: Seq<StatementView>)
    ensures
        statement_text(StatementView::Statements(children)) == statement_text(
            StatementView::Statements(without_noops(children)),
        ),
{
    lemma_children_texts_without_noops(children);
}

/// Two sequences that differ only in where their `Noop` members stand, and
/// in how many they have, render alike.
pub proof fn lemma_sequences_alike_but_for_noops(
    first: Seq<StatementView>,
    second: Seq<StatementView>,
)
    requires
        without_noops(first) == without_noops(second),
    ensures
        statement_text(StatementView::Statements(first)) == statement_text(
            StatementView::Statements(second),
        ),
{
    lemma_children_texts_without_noops(first);
    lemma_children_texts_without_noops(second);
}

/// An indented text begins as the indented form of any of its beginnings
/// does.
pub proof fn lemma_indent_text_prefix(head: Seq<char>, tail: Seq<char>)
    ensures
        starts_with(indent_text(head + tail), indent_text(head)),
    decreases tail.len(),
{
    let start = indent_text(head);
    if tail.len() == 0 {
        assert(start.subrange(0, start.len() as int) =~= start);
    } else {
        let front = tail.drop_last();
        lemma_indent_text_prefix(head, front);
        lemma_indent_text_push(head + front, tail.last());
        assert((head + front).push(tail.last()) =~= head + tail);
        let shorter = indent_text(head + front);
        let longer = indent_text(head + tail);
        assert(longer.subrange(0, start.len() as int) =~= shorter.subrange(
            0,
            start.len() as int,
        ));
    }
}

/// The word `else` stands in the text of a conditional without an
/// alternative only where the text of the test or of the body holds it.
proof fn lemma_else_between_keywords(t: Seq<char>, b: Seq<char>)
    ensures
        contains_text("if "@ + t + "; then\n"@ + b + "\nfi"@, "else"@) <==> contains_text(
            t,
            "else"@,
        ) || contains_text(b, "else"@),
{
    reveal_strlit("if ");
    reveal_strlit("; then\n");
    reveal_strlit("\nfi");
    reveal_strlit("else");
    let word = "else"@;
    let opening = "if "@;
    let middle = "; then\n"@;
    let closing = "\nfi"@;
    let whole = opening + t + middle + b + closing;
    let t_start = 3int;
    let t_end: int = t_start + t.len();
    let b_start: int = t_end + 7;
    let b_end: int = b_start + b.len();
    assert forall|k: int| 0 <= k < 3 implies whole[k] == opening[k] by {}
    assert forall|k: int| t_start <= k < t_end implies whole[k] == t[k - t_start] by {}
    assert forall|k: int| t_end <= k < b_start implies whole[k] == middle[k - t_end] by {}
    assert forall|k: int| b_start <= k < b_end implies whole[k] == b[k - b_start] by {}
    assert forall|k: int| b_end <= k < b_end + 3 implies whole[k] == closing[k - b_end] by {}
    if contains_text(t, word) {
        let k = choose|k: int| occurs_at(t, word, k);
        assert(whole.subrange(k + t_start, k + t_start + 4) =~= t.subrange(k, k + 4));
        assert(occurs_at(whole, word, k + t_start));
    }
    if contains_text(b, word) {
        let k = choose|k: int| occurs_at(b, word, k);
        assert(whole.subrange(k + b_start, k + b_start + 4) =~= b.subrange(k, k + 4));
        assert(occurs_at(whole, word, k + b_start));
    }
    if contains_text(whole, word) {
        let i = choose|i: int| occurs_at(whole, word, i);
        let window = whole.subrange(i, i + 4);
        assert(window[0] == 'e' && window[1] == 'l' && window[2] == 's' && window[3] == 'e');
        assert(whole[i] == 'e' && whole[i + 1] == 'l' && whole[i + 2] == 's');
        if t_start <= i && i + 4 <= t_end {
            assert(t.subrange(i - t_start, i - t_start + 4) =~= window);
            assert(occurs_at(t, word, i - t_start));
        } else if b_start <= i && i + 4 <= b_end {
            assert(b.subrange(i - b_start, i - b_start + 4) =~= window);
            assert(occurs_at(b, word, i - b_start));
        } else if i < t_start {
            // The window begins in `if `, which has no `e`.
            assert(whole[i] == opening[i]);
        } else if i < t_end {
            // The window begins in the test and runs into the semicolon.
            assert(whole[t_end] == middle[0]);
        } else if i < b_start {
            // The window begins in `; then`: at its `e`, which an `n`
            // follows.
            assert(whole[i] == middle[i - t_end]);
            assert(i - t_end == 4);
        } else if i < b_end {
            // The window begins in the body and runs into the newline.
            assert(whole[b_end] == closing[0]);
        } else {
            // The window begins in the last line, which has no `e`.
            assert(whole[i] == closing[i - b_end]);
        }
    }
}

/// A conditional without an alternative closes right behind its body, and
/// the word `else` stands in its text only where the test or the indented
/// body holds it.
pub proof fn lemma_if_without_alternative(test: ConditionView, body: StatementView)
    ensures
        statement_text(
            StatementView::If(test, Box::new(body), Box::new(StatementView::Noop)),
        ) == if_head(test, body) + "\nfi"@,
        contains_text(
            statement_text(StatementView::If(test, Box::new(body), Box::new(StatementView::Noop))),
            "else"@,
        ) <==> contains_text(condition_text(test), "else"@) || contains_text(
            indent_text(statement_text(body)),
            "else"@,
        ),
{
    let t = condition_text(test);
    let b = indent_text(statement_text(body));
    assert(if_head(test, body) == "if "@ + t + "; then\n"@ + b);
    lemma_else_between_keywords(t, b);
}

/// A conditional whose alternative is itself a conditional goes on, behind
/// its body, with `el` and the indented alternative. The alternative
/// begins with its own `if`, so what follows `el` is two spaces and `if`:
/// the text neither spells `else` there nor closes with a second `fi`.
pub proof fn lemma_if_with_nested_alternative(
    test: ConditionView,
    body: StatementView,
    otherwise: StatementView,
)
    requires
        otherwise is If,
    ensures
        statement_text(StatementView::If(test, Box::new(body), Box::new(otherwise))) == if_head(
            test,
            body,
        ) + "\nel"@ + indent_text(statement_text(otherwise)),
        starts_with(indent_text(statement_text(otherwise)), "  if "@),
{
    reveal_strlit("if ");
    reveal_strlit("  if ");
    let inner = statement_text(otherwise);
    let opening = "if "@;
    let rest = inner.skip(3);
    assert(if_head(otherwise->If_0, *otherwise->If_1).subrange(0, 3) =~= opening);
    assert(opening + rest =~= inner);
    lemma_indent_text_prefix(opening, rest);
    let e = Seq::<char>::empty();
    assert(indent_text(e) =~= seq![' ', ' ']) by {
        let f = |line: Seq<char>| indent_line(line);
        assert(lines(e).map_values(f) =~= seq![indent_line(e)]);
    }
    lemma_indent_text_push(e, 'i');
    lemma_indent_text_push(e.push('i'), 'f');
    lemma_indent_text_push(e.push('i').push('f'), ' ');
    assert(e.push('i').push('f').push(' ') =~= opening);
    assert(indent_text(opening) =~= "  if "@);
}

/// The marker lines of a fold stand whole: where the name of the fold is
/// not empty and holds no newline, the first line of its text is the
/// start marker with the name, the last line is the end marker with the
/// name, and the lines between them are those of the body.
pub proof fn lemma_fold_marker_lines(name: Seq<char>, body: StatementView)
    requires
        valid_fold_name(name),
    ensures
        lines(statement_text(StatementView::Fold(name, Box::new(body)))) == seq![
            "travis_fold start "@ + name,
        ] + lines(statement_text(body)) + seq!["travis_fold end "@ + name],
{
    reveal_strlit("travis_fold start ");
    reveal_strlit("\n");
    reveal_strlit("\ntravis_fold end ");
    reveal_strlit("travis_fold end ");
    let start = "travis_fold start "@ + name;
    let end = "travis_fold end "@ + name;
    let inner = statement_text(body);
    let whole = statement_text(StatementView::Fold(name, Box::new(body)));
    assert(whole =~= start + seq!['\n'] + (inner + seq!['\n'] + end));
    lemma_lines_around_newline(start, inner + seq!['\n'] + end);
    lemma_lines_around_newline(inner, end);
    lemma_lines_of_join_lines(seq![start]);
    lemma_lines_of_join_lines(seq![end]);
}

} // verus!
