use travis_build::components::services::{normalize_service, start_services_ast};
use travis_build::payload::{Config, GitConfig, Job, Payload, Repository};
use travis_build::test_ast_runner::TestAstRunner;

fn payload_with_services(services: Vec<String>) -> Payload {
    Payload {
        job: Job {
            branch: "master".to_string(),
            commit: "abcdef".to_string(),
            git_ref: None,
            pull_request: false,
        },
        repository: Repository {
            slug: "example_owner/example_repo".to_string(),
            source_url: "git://github.com/example_owner/example_repo.git".to_string(),
        },
        config: Config { language: "rust".to_string(), git: GitConfig::default(), services },
        paranoid: false,
        fix_resolv_conf: false,
        fix_etc_hosts: false,
    }
}

fn command_was_run(runner: &TestAstRunner, expected: &str) -> bool {
    runner.commands.iter().any(|(command, _)| command.as_str() == expected)
}

fn command_was_run_start(runner: &TestAstRunner, expected: &str) -> bool {
    runner.commands.iter().any(|(command, _)| command.as_str().starts_with(expected))
}

#[test]
fn test_no_services() {
    let payload = payload_with_services(vec![]);
    let script = start_services_ast(&payload);
    let mut runner = TestAstRunner::new();
    runner.run(&script);

    assert!(!command_was_run_start(&runner, "sudo service"));
}

#[test]
fn test_service_normalized() {
    let payload = payload_with_services(vec!["redis".to_string()]);

    let script = start_services_ast(&payload);
    let mut runner = TestAstRunner::new();
    runner.run(&script);

    assert!(command_was_run(&runner, "sudo service redis-server start"));
}

#[test]
fn test_service_not_normalized() {
    let payload = payload_with_services(vec!["elasticsearch".to_string()]);

    let script = start_services_ast(&payload);
    let mut runner = TestAstRunner::new();
    runner.run(&script);

    assert!(command_was_run(&runner, "sudo service elasticsearch start"));
}

#[test]
fn every_short_name_is_normalized() {
    assert_eq!("hbase-master", normalize_service("hbase".to_string()).as_str());
    assert_eq!("memcached", normalize_service("memcache".to_string()).as_str());
    assert_eq!("neo4j", normalize_service("neo4j-server".to_string()).as_str());
    assert_eq!("rabbitmq-server", normalize_service("rabbitmq".to_string()).as_str());
    assert_eq!("redis-server", normalize_service("redis".to_string()).as_str());
    assert_eq!("redis-server", normalize_service("redis-server".to_string()).as_str());
    assert_eq!("", normalize_service("".to_string()).as_str());
}

#[test]
fn services_start_in_the_order_of_the_job() {
    let payload = payload_with_services(vec!["redis".to_string(), "mysql".to_string()]);
    let script = start_services_ast(&payload);
    let mut runner = TestAstRunner::new();
    runner.run(&script);

    let texts: Vec<&str> = runner.commands.iter().map(|(command, _)| command.as_str()).collect();
    assert_eq!(vec!["sudo service redis-server start", "sudo service mysql start"], texts);
}
