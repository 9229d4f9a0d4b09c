use travis_build::ast::{Command, CommandOption, Condition, Statement};
use travis_build::bash::{indent, shellescape, ToBash};

fn cmd() -> Statement {
    Statement::Cmd(Command::Raw("hello world".to_string()), vec![])
}

fn this_and_that() -> (Box<Condition>, Box<Condition>) {
    (
        Box::new(Condition::CmdCond(Command::Raw("this".to_string()))),
        Box::new(Condition::CmdCond(Command::Raw("that".to_string()))),
    )
}

#[test]
fn test_statement_to_bash() {
    assert_eq!("travis_cmd hello\\ world", cmd().to_bash().as_str());
    assert_eq!(
        "travis_cmd hello\\ world --echo --display=this\\ is\\ output --assert",
        Statement::Cmd(
            Command::Raw("hello world".to_string()),
            vec![
                CommandOption::EchoOption,
                CommandOption::DisplayOption("this is output".to_string()),
                CommandOption::AssertOption
            ]
        )
        .to_bash()
        .as_str()
    );
    assert_eq!(
        "travis_fold start hello\ntravis_cmd hello\\ world\ntravis_fold end hello",
        Statement::Fold("hello".to_string(), Box::new(cmd())).to_bash().as_str()
    );
    assert_eq!("", Statement::Noop.to_bash().as_str());
    assert_eq!(
        "if true; then\n  travis_cmd hello\\ world\nfi",
        Statement::If(
            Condition::CmdCond(Command::Raw("true".to_string())),
            Box::new(cmd()),
            Box::new(Statement::Noop)
        )
        .to_bash()
        .as_str()
    );
    assert_eq!(
        "travis_cmd hello\\ world\ntravis_cmd hello\\ world",
        Statement::Statements(vec![cmd(), cmd()]).to_bash().as_str()
    );
}

#[test]
fn test_command_to_bash() {
    assert_eq!("foo bar", Command::Raw("foo bar".to_string()).to_bash().as_str());
    assert_eq!("echo foo bar", Command::Echo("foo bar".to_string()).to_bash().as_str());
    assert_eq!("echo", Command::Newline.to_bash().as_str());
    assert_eq!(
        "export FOO=bar\\ baz",
        Command::Envset("FOO".to_string(), "bar baz".to_string()).to_bash().as_str()
    );
    assert_eq!(
        "cd path/to/some\\ where",
        Command::Cd("path/to/some where".to_string()).to_bash().as_str()
    );
    assert_eq!(
        "base64 --decode > path/to/file <<<aGVsbG8gd29ybGQ\\=",
        Command::Putfile("path/to/file".to_string(), b"hello world".to_vec()).to_bash().as_str()
    );
    assert_eq!("mkdir -p path/to/dir", Command::Mkdir("path/to/dir".to_string()).to_bash().as_str());
    assert_eq!(
        "cp -r path/from path/to",
        Command::Copyfile("path/from".to_string(), "path/to".to_string()).to_bash().as_str()
    );
    assert_eq!(
        "mv path/from path/to",
        Command::Movefile("path/from".to_string(), "path/to".to_string()).to_bash().as_str()
    );
    assert_eq!(
        "rm -rf path/to/remove",
        Command::Removefile("path/to/remove".to_string()).to_bash().as_str()
    );
}

#[test]
fn test_condition_to_bash() {
    assert_eq!(
        "[[ -e this/is\\ the/path ]]",
        Condition::Exists("this/is the/path".to_string()).to_bash().as_str()
    );
    assert_eq!(
        "[[ -d this/is\\ the/path ]]",
        Condition::IsDirectory("this/is the/path".to_string()).to_bash().as_str()
    );
    assert_eq!(
        "[[ -f this/is\\ the/path ]]",
        Condition::IsFile("this/is the/path".to_string()).to_bash().as_str()
    );
    assert_eq!(
        "hello world",
        Condition::CmdCond(Command::Raw("hello world".to_string())).to_bash().as_str()
    );
    let (this, that) = this_and_that();
    assert_eq!("{ this && that; }", Condition::And(this, that).to_bash().as_str());
    let (this, that) = this_and_that();
    assert_eq!("{ this || that; }", Condition::Or(this, that).to_bash().as_str());
    let (this, _) = this_and_that();
    assert_eq!("{ ! this; }", Condition::Not(this).to_bash().as_str());
}

#[test]
fn escape_of_the_empty_text_is_a_pair_of_quotes() {
    assert_eq!("''", shellescape("").as_str());
}

#[test]
fn escape_puts_a_backslash_before_a_space() {
    assert_eq!("hello\\ world", shellescape("hello world").as_str());
}

#[test]
fn escape_keeps_safe_characters() {
    assert_eq!("azAZ09_-.,:/@", shellescape("azAZ09_-.,:/@").as_str());
}

#[test]
fn escape_quotes_a_newline() {
    assert_eq!("a'\n'b", shellescape("a\nb").as_str());
    assert_eq!("'\n'", shellescape("\n").as_str());
}

#[test]
fn escape_puts_a_backslash_before_every_other_character() {
    assert_eq!("\\$\\(rm\\ -rf\\)\\;\\'\\\"\\\\", shellescape("$(rm -rf);'\"\\").as_str());
    assert_eq!("\\é", shellescape("é").as_str());
}

#[test]
fn indent_puts_two_spaces_before_each_line() {
    assert_eq!("  ", indent("").as_str());
    assert_eq!("  a", indent("a").as_str());
    assert_eq!("  a\n  b", indent("a\nb").as_str());
    assert_eq!("  a\n  \n    b\n  ", indent("a\n\n  b\n").as_str());
}

#[test]
fn indent_keeps_the_number_of_lines() {
    let body = "one\ntwo\n\nfour";
    let indented = indent(body);
    let before: Vec<&str> = body.split('\n').collect();
    let after: Vec<&str> = indented.as_str().split('\n').collect();
    assert_eq!(before.len(), after.len());
    for i in 0..before.len() {
        assert_eq!(format!("  {}", before[i]), after[i]);
    }
}

#[test]
fn sequence_leaves_noops_out() {
    let with = Statement::Statements(vec![
        Statement::Noop,
        cmd(),
        Statement::Noop,
        Statement::Noop,
        cmd(),
        Statement::Noop,
    ]);
    let without = Statement::Statements(vec![cmd(), cmd()]);
    assert_eq!(without.to_bash(), with.to_bash());
    assert_eq!("travis_cmd hello\\ world\ntravis_cmd hello\\ world", with.to_bash().as_str());
    assert_eq!("", Statement::Statements(vec![Statement::Noop]).to_bash().as_str());
    assert_eq!("", Statement::Statements(vec![]).to_bash().as_str());
}

#[test]
fn sequence_counts_an_empty_child_that_is_no_noop() {
    let script = Statement::Statements(vec![Statement::Statements(vec![]), cmd()]);
    assert_eq!("\ntravis_cmd hello\\ world", script.to_bash().as_str());
}

#[test]
fn conditional_without_alternative_has_no_else() {
    let script = Statement::If(
        Condition::CmdCond(Command::Raw("true".to_string())),
        Box::new(cmd()),
        Box::new(Statement::Noop),
    );
    assert!(!script.to_bash().contains("else"));
}

#[test]
fn conditional_with_alternative() {
    let script = Statement::If(
        Condition::CmdCond(Command::Raw("true".to_string())),
        Box::new(cmd()),
        Box::new(Statement::Statements(vec![cmd(), cmd()])),
    );
    assert_eq!(
        "if true; then\n  travis_cmd hello\\ world\nelse\n  travis_cmd hello\\ world\n  travis_cmd hello\\ world\nfi",
        script.to_bash().as_str()
    );
}

#[test]
fn conditional_with_nested_conditional_goes_on_with_el() {
    let inner = Statement::If(
        Condition::CmdCond(Command::Raw("false".to_string())),
        Box::new(cmd()),
        Box::new(Statement::Noop),
    );
    let script = Statement::If(
        Condition::CmdCond(Command::Raw("true".to_string())),
        Box::new(cmd()),
        Box::new(inner),
    );
    assert_eq!(
        "if true; then\n  travis_cmd hello\\ world\nel  if false; then\n    travis_cmd hello\\ world\n  fi",
        script.to_bash().as_str()
    );
}

#[test]
fn flags_come_in_one_order() {
    let script = Statement::Cmd(
        Command::Raw("make".to_string()),
        vec![
            CommandOption::AssertOption,
            CommandOption::DisplayOption("first".to_string()),
            CommandOption::EchoOption,
            CommandOption::DisplayOption("second".to_string()),
            CommandOption::AssertOption,
        ],
    );
    assert_eq!("travis_cmd make --echo --display=second --assert", script.to_bash().as_str());
}

#[test]
fn action_escapes_the_whole_command() {
    let script = Statement::Cmd(Command::Cd("some where".to_string()), vec![]);
    assert_eq!("travis_cmd cd\\ some\\\\\\ where", script.to_bash().as_str());
}

#[test]
fn putfile_encodes_other_lengths() {
    assert_eq!(
        "base64 --decode > f <<<''",
        Command::Putfile("f".to_string(), vec![]).to_bash().as_str()
    );
    assert_eq!(
        "base64 --decode > f <<<\\+/8\\=",
        Command::Putfile("f".to_string(), vec![0xfb, 0xff]).to_bash().as_str()
    );
}

#[test]
fn negation_wraps_without_simplifying() {
    let test = Condition::Exists("a".to_string());
    let twice = test.not().not();
    assert_eq!("{ ! { ! [[ -e a ]]; }; }", twice.to_bash().as_str());
    assert_eq!(
        Condition::Not(Box::new(Condition::Not(Box::new(Condition::Exists("a".to_string()))))),
        twice
    );
}

/// Reads words as a shell does: blanks end a word, a backslash makes the next character stand
/// for itself, single quotes make everything between them stand for itself.
fn read_words(input: &str) -> Vec<String> {
    let mut words = Vec::new();
    let mut word: Option<String> = None;
    let mut chars = input.chars();
    while let Some(c) = chars.next() {
        match c {
            ' ' | '\t' | '\n' => {
                if let Some(done) = word.take() {
                    words.push(done);
                }
            }
            '\\' => match chars.next() {
                Some('\n') => {}
                Some(next) => word.get_or_insert_with(String::new).push(next),
                None => panic!("a backslash at the end"),
            },
            '\'' => {
                let quoted = word.get_or_insert_with(String::new);
                loop {
                    match chars.next() {
                        Some('\'') => break,
                        Some(inner) => quoted.push(inner),
                        None => panic!("a quote that is not closed"),
                    }
                }
            }
            plain => word.get_or_insert_with(String::new).push(plain),
        }
    }
    if let Some(done) = word.take() {
        words.push(done);
    }
    words
}

#[test]
fn an_escaped_text_reads_back_as_one_word() {
    let texts = [
        "",
        "hello world",
        "a\nb",
        "\n",
        "it's",
        "''",
        "\\",
        "\\\n",
        " leading and trailing ",
        "tab\there",
        "$(rm -rf /); echo `id` > \"x\" & | < * ? [a] {b} ~ # ! %",
        "ünï©ødé ✓",
        "azAZ09_-.,:/@",
    ];
    for text in texts {
        assert_eq!(vec![text.to_string()], read_words(shellescape(text).as_str()), "{:?}", text);
    }
}

#[test]
fn escaped_texts_stay_apart_in_a_line() {
    let line = format!("{} {} {}", shellescape("a b"), shellescape(""), shellescape("c\nd"));
    assert_eq!(vec!["a b".to_string(), "".to_string(), "c\nd".to_string()], read_words(&line));
}

#[test]
fn the_marker_lines_of_a_fold_stand_whole() {
    let body = Statement::Statements(vec![cmd(), cmd()]);
    let text = Statement::Fold("my fold".to_string(), Box::new(body)).to_bash();
    let lines: Vec<&str> = text.split('\n').collect();
    assert_eq!(
        vec![
            "travis_fold start my fold",
            "travis_cmd hello\\ world",
            "travis_cmd hello\\ world",
            "travis_fold end my fold"
        ],
        lines
    );
}
