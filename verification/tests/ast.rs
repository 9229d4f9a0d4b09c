use travis_build::ast::{
    clone_options, echoed, echoed_and_asserted, is_valid_fold_name, no_options, Command,
    CommandOption, Condition, Statement,
};
use travis_build::bash::ToBash;

fn raw(text: &str) -> Statement {
    Statement::Cmd(Command::Raw(text.to_string()), vec![])
}

fn a_tree() -> Statement {
    Statement::Statements(vec![
        Statement::Fold(
            "outer".to_string(),
            Box::new(Statement::If(
                Condition::And(
                    Box::new(Condition::Exists("a".to_string())),
                    Box::new(Condition::Not(Box::new(Condition::IsFile("b".to_string())))),
                ),
                Box::new(Statement::Cmd(
                    Command::Putfile("f".to_string(), vec![1, 2, 3]),
                    vec![CommandOption::DisplayOption("d".to_string()), CommandOption::EchoOption],
                )),
                Box::new(Statement::Noop),
            )),
        ),
        raw("x"),
    ])
}

#[test]
fn only_noop_is_a_noop() {
    assert!(Statement::Noop.is_noop());
    assert!(!raw("").is_noop());
    assert!(!Statement::Statements(vec![]).is_noop());
    assert!(!Statement::Statements(vec![Statement::Noop]).is_noop());
    assert!(!Statement::Fold("f".to_string(), Box::new(Statement::Noop)).is_noop());
}

#[test]
fn a_clone_is_equal_to_the_tree() {
    let tree = a_tree();
    let copy = tree.clone();
    assert_eq!(tree, copy);
    assert_eq!(tree.to_bash(), copy.to_bash());
    let options = vec![CommandOption::AssertOption, CommandOption::DisplayOption("d".to_string())];
    assert_eq!(options, clone_options(&options));
}

#[test]
fn option_lists() {
    assert!(no_options().is_empty());
    assert_eq!(vec![CommandOption::EchoOption], echoed());
    assert_eq!(
        vec![CommandOption::EchoOption, CommandOption::AssertOption],
        echoed_and_asserted()
    );
}

#[test]
fn builders_make_the_nodes() {
    assert_eq!(Statement::Statements(vec![raw("a"), raw("b")]), Statement::block(vec![raw("a"), raw("b")]));
    assert_eq!(raw("a"), Statement::raw("a".to_string(), vec![]));
    assert_eq!(
        Statement::Cmd(Command::Newline, vec![CommandOption::EchoOption]),
        Statement::cmd(Command::Newline, echoed())
    );
    assert_eq!(
        Statement::Cmd(Command::Envset("K".to_string(), "v".to_string()), vec![]),
        Statement::set("K", "v")
    );
    assert_eq!(
        Statement::If(Condition::Exists("p".to_string()), Box::new(raw("a")), Box::new(Statement::Noop)),
        Statement::when(Condition::Exists("p".to_string()), raw("a"))
    );
    assert_eq!(
        Statement::If(Condition::Exists("p".to_string()), Box::new(raw("a")), Box::new(raw("b"))),
        Statement::if_else(Condition::Exists("p".to_string()), raw("a"), raw("b"))
    );
}

#[test]
fn a_fold_needs_a_name_for_its_marker_lines() {
    assert!(is_valid_fold_name("setup"));
    assert!(is_valid_fold_name("with space"));
    assert!(!is_valid_fold_name(""));
    assert!(!is_valid_fold_name("two\nlines"));
    assert!(!is_valid_fold_name("\n"));
    assert_eq!(
        Some(Statement::Fold("setup".to_string(), Box::new(raw("a")))),
        Statement::fold("setup".to_string(), raw("a"))
    );
    assert_eq!(None, Statement::fold("".to_string(), raw("a")));
    assert_eq!(None, Statement::fold("a\nb".to_string(), raw("a")));
}

#[test]
fn a_tree_is_well_formed_where_its_folds_are() {
    assert!(a_tree().is_well_formed());
    assert!(Statement::Noop.is_well_formed());
    let bad = Statement::Fold("".to_string(), Box::new(Statement::Noop));
    assert!(!bad.is_well_formed());
    let nested = Statement::Statements(vec![
        raw("a"),
        Statement::If(
            Condition::Exists("p".to_string()),
            Box::new(Statement::Noop),
            Box::new(Statement::Fold("a\nb".to_string(), Box::new(Statement::Noop))),
        ),
    ]);
    assert!(!nested.is_well_formed());
}
