use travis_build::ast::Statement;
use travis_build::bash::ToBash;
use travis_build::payload::{Config, GitConfig, Job, Payload, Repository};
use travis_build::script::Script;
use travis_build::test_ast_runner::TestAstRunner;

fn a_payload() -> Payload {
    Payload {
        job: Job {
            branch: "master".to_string(),
            commit: "abcdef".to_string(),
            git_ref: None,
            pull_request: false,
        },
        repository: Repository {
            slug: "example_owner/example_repo".to_string(),
            source_url: "git://github.com/example_owner/example_repo.git".to_string(),
        },
        config: Config { language: "rust".to_string(), git: GitConfig::default(), services: vec![] },
        paranoid: false,
        fix_resolv_conf: false,
        fix_etc_hosts: false,
    }
}

const PLAIN_SCRIPT: &str = "
travis_cmd mkdir\\ -p\\ /home/travis/build
travis_cmd cd\\ build
travis_cmd export\\ GIT_ASKPASS\\=echo
if { ! [[ -d example_owner/example_repo/.git ]]; }; then
  travis_cmd git\\ clone\\ --depth\\=50\\ --branch\\=master\\ git://github.com/example_owner/example_repo.git\\ example_owner/example_repo --echo --assert
else
  travis_cmd git\\ -C\\ example_owner/example_repo\\ fetch\\ origin --echo --assert
  travis_cmd git\\ -C\\ example_owner/example_repo\\ reset\\ --hard --echo --assert
fi
travis_cmd cd\\ example_owner/example_repo
travis_cmd git\\ checkout\\ -qf\\ abcdef --echo --assert
if [[ -f .gitmodules ]]; then
  travis_cmd git\\ submodule\\ init --echo
  travis_cmd git\\ submodule\\ update --echo
fi

travis_cmd export\\ TRAVIS\\=true
travis_cmd export\\ CI\\=true
travis_cmd export\\ CONTINUOUS_INTEGRATION\\=true
travis_cmd export\\ HAS_JOSH_K_SEAL_OF_APPROVAL\\=true";

#[test]
fn the_script_stands_between_header_and_footer() {
    let script = Script::new(a_payload());
    let expected = format!("#!/bin/bash\n{}\necho done\n", PLAIN_SCRIPT);
    assert_eq!(expected, script.to_script("#!/bin/bash\n", "echo done\n"));
}

#[test]
fn the_script_without_header_and_footer_ends_in_a_newline() {
    let script = Script::new(a_payload());
    assert_eq!(format!("{}\n", PLAIN_SCRIPT), script.to_script("", ""));
}

#[test]
fn the_tree_renders_as_the_script_does() {
    let script = Script::new(a_payload());
    let tree = script.generate_ast();
    assert!(tree.is_well_formed());
    assert_eq!(PLAIN_SCRIPT, tree.to_bash().as_str());
}

#[test]
fn fixes_are_applied_on_request() {
    let mut payload = a_payload();
    payload.fix_resolv_conf = true;
    let script = Script::new(payload);
    assert_eq!(
        "travis_cmd grep\\ \\'199.91.168\\'\\ /etc/resolv.conf\\ \\>\\ /dev/null\\ \\|\\|\\ echo\\ \\'nameserver\\ 199.91.168.70'\n'nameserver\\ 199.91.168.71\\'\\ \\|\\ sudo\\ tee\\ /etc/resolv.conf\\ \\&\\>\\ /dev/null",
        script.apply_fixes().to_bash().as_str()
    );

    let mut payload = a_payload();
    payload.fix_etc_hosts = true;
    let script = Script::new(payload);
    let mut runner = TestAstRunner::new();
    runner.run(&script.apply_fixes());
    assert_eq!(1, runner.commands.len());
    assert_eq!(
        "sudo sed -e 's/^\\(127\\.0\\.0\\.1.*\\)$/\\1 '`hostname`'/' -i'.bak' /etc/hosts",
        runner.commands[0].0.as_str()
    );

    let mut payload = a_payload();
    payload.fix_resolv_conf = true;
    payload.fix_etc_hosts = true;
    let script = Script::new(payload);
    let mut runner = TestAstRunner::new();
    runner.run(&script.apply_fixes());
    assert_eq!(2, runner.commands.len());

    let script = Script::new(a_payload());
    assert_eq!("", script.apply_fixes().to_bash().as_str());
}

#[test]
fn paranoid_mode_is_off_unless_asked_for() {
    let script = Script::new(a_payload());
    assert_eq!(Statement::Noop, script.enable_paranoid_mode());

    let mut payload = a_payload();
    payload.paranoid = true;
    let script = Script::new(payload);
    let mut runner = TestAstRunner::new();
    runner.run(&script.enable_paranoid_mode());
    let texts: Vec<&str> = runner.commands.iter().map(|(command, _)| command.as_str()).collect();
    assert_eq!(
        vec![
            "echo",
            "echo Sudo, the Firefox addon, setuid and setgid have been disabled.",
            "sudo -n sh -c \"sed -e \\'s/^%.*//\\' -i.bak /etc/sudoers && rm -f /etc/sudoers.d/travis && find / -perm -4000 -exec chmod a-s {} \\; 2>/dev/null\"",
        ],
        texts
    );
}

#[test]
fn the_variables_of_a_build_are_exported() {
    let script = Script::new(a_payload());
    let mut runner = TestAstRunner::new();
    runner.run(&script.export_vars());
    for name in ["TRAVIS", "CI", "CONTINUOUS_INTEGRATION", "HAS_JOSH_K_SEAL_OF_APPROVAL"] {
        assert_eq!(Some(&"true".to_string()), runner.var(name));
    }
    assert_eq!(4, runner.environment_vars.len());
}

#[test]
fn there_are_no_custom_stages() {
    let script = Script::new(a_payload());
    assert_eq!(Statement::Noop, script.custom_stages_ast());
}

#[test]
fn the_whole_script_runs() {
    let mut payload = a_payload();
    payload.paranoid = true;
    payload.config.services = vec!["memcache".to_string()];
    let script = Script::new(payload);
    let mut runner = TestAstRunner::new();
    assert_eq!(Ok(()), runner.try_run(&script.generate_ast()));
    assert_eq!(
        "/home/travis/build/example_owner/example_repo",
        runner.working_directory.as_str()
    );
    let texts: Vec<&str> = runner.commands.iter().map(|(command, _)| command.as_str()).collect();
    assert!(texts.contains(&"sudo service memcached start"));
    assert!(texts.contains(&"git checkout -qf abcdef"));
    assert_eq!(Some(&"true".to_string()), runner.var("CI"));
}
