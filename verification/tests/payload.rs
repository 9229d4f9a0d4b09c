use travis_build::json::{
    is_parseable, ParseError, Value, MAX_EXPONENT_DIGITS, MAX_OPENINGS, MAX_TEXT_BYTES,
};
use travis_build::payload::{
    Config, DecodeError, GitConfig, GitStrategy, Job, Kind, Payload, PayloadError, Repository,
};

fn text(value: &str) -> Value {
    Value::String(value.to_string())
}

fn object(members: Vec<(&str, Value)>) -> Value {
    Value::Object(members.into_iter().map(|(key, value)| (key.to_string(), value)).collect())
}

fn a_job() -> Value {
    object(vec![
        ("commit", text("abcdef")),
        ("branch", text("master")),
        ("pull_request", Value::Boolean(false)),
    ])
}

fn a_repository() -> Value {
    object(vec![
        ("slug", text("henrikhodne/test")),
        ("source_url", text("git://github.com/henrikhodne/test.git")),
    ])
}

fn a_document() -> Value {
    object(vec![
        ("repository", a_repository()),
        ("job", a_job()),
        ("config", object(vec![("language", text("rust")), ("os", text("linux"))])),
    ])
}

fn missing(field: &str) -> DecodeError {
    DecodeError::MissingField(field.to_string())
}

fn wrong(field: &str, kind: Kind) -> DecodeError {
    DecodeError::WrongKind(field.to_string(), kind)
}

#[test]
fn a_document_is_decoded() {
    let payload = Payload::from_json(&a_document()).unwrap();
    assert_eq!("master", payload.job.branch);
    assert_eq!("abcdef", payload.job.commit);
    assert_eq!(None, payload.job.git_ref);
    assert!(!payload.job.pull_request);
    assert_eq!("henrikhodne/test", payload.repository.slug);
    assert_eq!("git://github.com/henrikhodne/test.git", payload.repository.source_url);
    assert_eq!("rust", payload.config.language);
    assert_eq!(GitConfig::default(), payload.config.git);
    assert!(payload.config.services.is_empty());
    assert!(!payload.paranoid);
    assert!(!payload.fix_resolv_conf);
    assert!(!payload.fix_etc_hosts);
}

#[test]
fn the_flags_of_a_document_are_decoded() {
    let document = object(vec![
        ("job", a_job()),
        ("repository", a_repository()),
        ("config", object(vec![])),
        ("paranoid", Value::Boolean(true)),
        ("skip_resolv_updates", Value::Boolean(false)),
        ("skip_etc_hosts_fix", Value::Boolean(true)),
    ]);
    let payload = Payload::from_json(&document).unwrap();
    assert!(payload.paranoid);
    assert!(payload.fix_resolv_conf);
    assert!(!payload.fix_etc_hosts);
}

#[test]
fn the_configuration_is_read_from_its_own_member() {
    let repository = object(vec![
        ("slug", text("a/b")),
        ("source_url", text("git://example.org/a/b.git")),
        ("language", text("python")),
        ("services", Value::Array(vec![text("postgresql")])),
    ]);
    let config = object(vec![
        ("language", text("rust")),
        ("services", Value::Array(vec![text("redis"), text("mysql")])),
        ("git", object(vec![("depth", Value::U64(3)), ("strategy", text("tarball"))])),
    ]);
    let document =
        object(vec![("job", a_job()), ("repository", repository), ("config", config)]);
    let payload = Payload::from_json(&document).unwrap();
    assert_eq!("rust", payload.config.language);
    assert_eq!(vec!["redis".to_string(), "mysql".to_string()], payload.config.services);
    assert_eq!(3, payload.config.git.depth);
    assert_eq!(GitStrategy::Tarball, payload.config.git.strategy);
}

#[test]
fn a_configuration_without_fields_has_the_defaults() {
    let document = object(vec![
        ("job", a_job()),
        ("repository", a_repository()),
        ("config", Value::Null),
    ]);
    let payload = Payload::from_json(&document).unwrap();
    assert_eq!("ruby", payload.config.language);
    assert_eq!(GitConfig::default(), payload.config.git);
    assert!(payload.config.services.is_empty());
}

#[test]
fn a_payload_has_to_be_an_object() {
    assert_eq!(Some(wrong("payload", Kind::Object)), Payload::from_json(&Value::Null).err());
    assert_eq!(Some(wrong("payload", Kind::Object)), Payload::from_json(&text("x")).err());
    assert_eq!(Some(wrong("job", Kind::Object)), Job::from_json(&Value::Array(vec![])).err());
    assert_eq!(Some(wrong("repository", Kind::Object)), Repository::from_json(&Value::U64(1)).err());
}

#[test]
fn the_first_missing_field_is_reported() {
    assert_eq!(Some(missing("job")), Payload::from_json(&object(vec![])).err());
    assert_eq!(
        Some(missing("repository")),
        Payload::from_json(&object(vec![("job", a_job())])).err()
    );
    assert_eq!(
        Some(missing("config")),
        Payload::from_json(&object(vec![("job", a_job()), ("repository", a_repository())]))
            .err()
    );
    assert_eq!(Some(missing("branch")), Job::from_json(&object(vec![])).err());
    assert_eq!(
        Some(missing("commit")),
        Job::from_json(&object(vec![("branch", text("master"))])).err()
    );
    assert_eq!(
        Some(missing("pull_request")),
        Job::from_json(&object(vec![("branch", text("m")), ("commit", text("c"))])).err()
    );
    assert_eq!(Some(missing("slug")), Repository::from_json(&object(vec![])).err());
    assert_eq!(
        Some(missing("source_url")),
        Repository::from_json(&object(vec![("slug", text("a/b"))])).err()
    );
    let document = object(vec![("job", object(vec![])), ("repository", Value::Null)]);
    assert_eq!(Some(missing("branch")), Payload::from_json(&document).err());
}

#[test]
fn the_first_field_of_a_wrong_kind_is_reported() {
    let job = object(vec![
        ("branch", Value::U64(1)),
        ("commit", Value::U64(2)),
        ("pull_request", text("no")),
    ]);
    assert_eq!(Some(wrong("branch", Kind::String)), Job::from_json(&job).err());
    let job = object(vec![
        ("branch", text("master")),
        ("commit", text("abcdef")),
        ("ref", Value::Null),
        ("pull_request", text("no")),
    ]);
    assert_eq!(Some(wrong("ref", Kind::String)), Job::from_json(&job).err());
    let job = object(vec![
        ("branch", text("master")),
        ("commit", text("abcdef")),
        ("pull_request", text("no")),
    ]);
    assert_eq!(Some(wrong("pull_request", Kind::Boolean)), Job::from_json(&job).err());
    let document = object(vec![
        ("job", a_job()),
        ("repository", a_repository()),
        ("config", object(vec![])),
        ("paranoid", Value::Null),
    ]);
    assert_eq!(Some(wrong("paranoid", Kind::Boolean)), Payload::from_json(&document).err());
    let document = object(vec![
        ("job", a_job()),
        ("repository", a_repository()),
        ("config", object(vec![("language", Value::U64(1))])),
        ("paranoid", Value::Null),
    ]);
    assert_eq!(Some(wrong("language", Kind::String)), Payload::from_json(&document).err());
    let document = object(vec![
        ("job", a_job()),
        ("repository", a_repository()),
        ("config", object(vec![])),
        ("paranoid", Value::Null),
    ]);
    assert_eq!(Some(wrong("paranoid", Kind::Boolean)), Payload::from_json(&document).err());
}

#[test]
fn a_job_with_a_ref_is_decoded() {
    let job = object(vec![
        ("branch", text("master")),
        ("commit", text("abcdef")),
        ("ref", text("refs/pull/118/merge")),
        ("pull_request", Value::Boolean(true)),
    ]);
    let job = Job::from_json(&job).unwrap();
    assert_eq!(Some("refs/pull/118/merge".to_string()), job.git_ref);
    assert!(job.pull_request);
}

#[test]
fn a_configuration_has_defaults() {
    for document in vec![object(vec![]), Value::Null, text("x")] {
        let config = Config::from_json(&document).unwrap();
        assert_eq!("ruby", config.language);
        assert!(config.services.is_empty());
        assert_eq!(50, config.git.depth);
        assert!(config.git.submodules);
        assert_eq!(None, config.git.submodules_depth);
        assert_eq!(GitStrategy::Clone, config.git.strategy);
    }
}

#[test]
fn services_have_to_be_a_list_of_strings() {
    let error = Some(wrong("config.services", Kind::StringList));
    let document = object(vec![("services", text("redis"))]);
    assert_eq!(error, Config::from_json(&document).err());
    let document = object(vec![("services", Value::Array(vec![text("redis"), Value::U64(1)]))]);
    assert_eq!(error, Config::from_json(&document).err());
    let document = object(vec![("services", Value::Array(vec![])), ("language", Value::Null)]);
    assert_eq!(Some(wrong("language", Kind::String)), Config::from_json(&document).err());
}

#[test]
fn a_git_configuration_is_decoded() {
    let document = object(vec![
        ("depth", Value::I64(7)),
        ("submodules", Value::Boolean(false)),
        ("submodules_depth", Value::U64(2)),
        ("strategy", text("tarball")),
    ]);
    assert_eq!(
        Ok(GitConfig {
            depth: 7,
            submodules: false,
            submodules_depth: Some(2),
            strategy: GitStrategy::Tarball
        }),
        GitConfig::from_json(&document)
    );
    assert_eq!(Ok(GitConfig::default()), GitConfig::from_json(&Value::Null));
}

#[test]
fn a_git_configuration_reports_its_first_fault() {
    let document = object(vec![("depth", Value::I64(-1)), ("strategy", text("rsync"))]);
    assert_eq!(Err(DecodeError::UnknownStrategy), GitConfig::from_json(&document));
    let document = object(vec![("depth", Value::I64(-1)), ("submodules", Value::Null)]);
    assert_eq!(Err(wrong("depth", Kind::Number)), GitConfig::from_json(&document));
    let document = object(vec![("depth", Value::F64)]);
    assert_eq!(Err(wrong("depth", Kind::Number)), GitConfig::from_json(&document));
    let document = object(vec![("submodules", Value::U64(1))]);
    assert_eq!(Err(wrong("submodules", Kind::Boolean)), GitConfig::from_json(&document));
    let document = object(vec![("submodules_depth", text("1"))]);
    assert_eq!(Err(wrong("submodules_depth", Kind::Number)), GitConfig::from_json(&document));
    let document = object(vec![("git", object(vec![("depth", text("1"))]))]);
    assert_eq!(Some(wrong("depth", Kind::Number)), Config::from_json(&document).err());
}

#[test]
fn a_strategy_is_decoded() {
    assert_eq!(Ok(GitStrategy::Tarball), GitStrategy::from_json(&text("tarball")));
    assert_eq!(Ok(GitStrategy::Clone), GitStrategy::from_json(&text("clone")));
    assert_eq!(Ok(GitStrategy::Clone), GitStrategy::from_json(&Value::Null));
    assert_eq!(Ok(GitStrategy::Clone), GitStrategy::from_json(&Value::U64(3)));
    assert_eq!(Err(DecodeError::UnknownStrategy), GitStrategy::from_json(&text("Clone")));
    assert_eq!(Err(DecodeError::UnknownStrategy), GitStrategy::from_json(&text("")));
}

#[test]
fn the_default_git_configuration() {
    let config = GitConfig::default();
    assert_eq!(50, config.depth);
    assert!(config.submodules);
    assert_eq!(None, config.submodules_depth);
    assert_eq!(GitStrategy::Clone, config.strategy);
}

#[test]
fn errors_have_messages() {
    assert_eq!("missing field job", missing("job").message());
    assert_eq!("payload must be an object", wrong("payload", Kind::Object).message());
    assert_eq!("branch must be a string", wrong("branch", Kind::String).message());
    assert_eq!("paranoid must be a boolean", wrong("paranoid", Kind::Boolean).message());
    assert_eq!("depth must be a number", wrong("depth", Kind::Number).message());
    assert_eq!(
        "config.services must be a list of strings",
        wrong("config.services", Kind::StringList).message()
    );
    assert_eq!("git.strategy unknown", DecodeError::UnknownStrategy.message());
}

#[test]
fn json_accessors() {
    let document = object(vec![("a", Value::U64(1)), ("b", Value::Null), ("a", Value::U64(2))]);
    assert_eq!(Some(&Value::U64(1)), document.find("a"));
    assert_eq!(Some(&Value::Null), document.find("b"));
    assert_eq!(None, document.find("c"));
    assert_eq!(None, Value::Array(vec![Value::Null]).find("a"));
    assert!(document.is_object());
    assert!(!Value::Null.is_object());
    assert_eq!(Some("x"), text("x").as_string());
    assert_eq!(None, Value::Null.as_string());
    assert_eq!(Some(true), Value::Boolean(true).as_boolean());
    assert_eq!(None, Value::U64(1).as_boolean());
    assert_eq!(Some(5), Value::U64(5).as_u64());
    assert_eq!(Some(5), Value::I64(5).as_u64());
    assert_eq!(Some(0), Value::I64(0).as_u64());
    assert_eq!(None, Value::I64(-5).as_u64());
    assert_eq!(None, Value::F64.as_u64());
    assert_eq!(Some(&vec![Value::Null]), Value::Array(vec![Value::Null]).as_array());
    assert_eq!(None, document.as_array());
}

#[test]
fn a_text_is_parsed() {
    assert_eq!(Ok(Value::Null), Value::from_str("null"));
    assert_eq!(Ok(Value::Boolean(true)), Value::from_str(" true "));
    assert_eq!(Ok(Value::U64(50)), Value::from_str("50"));
    assert_eq!(Ok(Value::I64(-50)), Value::from_str("-50"));
    assert_eq!(Ok(Value::F64), Value::from_str("1.5"));
    assert_eq!(Ok(text("a\nb")), Value::from_str("\"a\\nb\""));
    assert_eq!(
        Ok(Value::Array(vec![Value::U64(1), text("x"), Value::Array(vec![])])),
        Value::from_str("[1, \"x\", []]")
    );
    assert_eq!(
        Ok(object(vec![("a", object(vec![])), ("b", Value::U64(2)), ("c", Value::Null)])),
        Value::from_str("{\"c\": null, \"a\": {}, \"b\": 1, \"b\": 2}")
    );
}

#[test]
fn a_text_that_is_no_document_is_not_parsed() {
    for input in ["", "{", "[1,]", "{\"a\" 1}", "nul", "1 2", "\"open"] {
        assert!(Value::from_str(input).is_err(), "{:?}", input);
    }
    match Value::from_str("[1,]") {
        Err(ParseError::Syntax(fault)) => {
            assert!(!fault.is_empty());
            assert_eq!(fault, ParseError::Syntax(fault.clone()).message());
        }
        other => panic!("{:?}", other),
    }
}

fn nested(depth: usize) -> String {
    format!("{}{}", "[".repeat(depth), "]".repeat(depth))
}

fn a_string_of(bytes: usize) -> String {
    format!("\"{}\"", "a".repeat(bytes - 2))
}

#[test]
fn a_text_at_the_limits_is_parsed() {
    assert_eq!(65535, MAX_TEXT_BYTES);
    assert_eq!(128, MAX_OPENINGS);
    let longest = a_string_of(MAX_TEXT_BYTES);
    assert!(is_parseable(&longest));
    assert_eq!(Ok(text(&"a".repeat(MAX_TEXT_BYTES - 2))), Value::from_str(&longest));
    let deepest = nested(MAX_OPENINGS);
    assert!(is_parseable(&deepest));
    assert!(Value::from_str(&deepest).is_ok());
    let key = "k".repeat(30000);
    let document = format!("{{\"{}\": {{\"{}\": 1}}}}", key, key);
    assert_eq!(
        Ok(object(vec![(key.as_str(), object(vec![(key.as_str(), Value::U64(1))]))])),
        Value::from_str(&document)
    );
}

#[test]
fn a_text_beyond_the_limits_is_turned_away() {
    let too_long = a_string_of(MAX_TEXT_BYTES + 1);
    assert!(!is_parseable(&too_long));
    assert_eq!(Err(ParseError::Refused), Value::from_str(&too_long));
    let too_deep = nested(MAX_OPENINGS + 1);
    assert!(!is_parseable(&too_deep));
    assert_eq!(Err(ParseError::Refused), Value::from_str(&too_deep));
    let braces_in_a_string = format!("\"{}\"", "{".repeat(MAX_OPENINGS + 1));
    assert_eq!(Err(ParseError::Refused), Value::from_str(&braces_in_a_string));
    let two_bytes_each = "é".repeat(MAX_TEXT_BYTES / 2 + 1);
    assert!(!is_parseable(&two_bytes_each));
    let key = "k".repeat(40000);
    let long_keys = format!("{{\"{}\": {{\"{}\": 1}}}}", key, key);
    assert_eq!(Err(ParseError::Refused), Value::from_str(&long_keys));
    assert_eq!(
        Some(PayloadError::Syntax(ParseError::Refused)),
        Payload::from_text(&long_keys).err()
    );
    assert_eq!("text refused", ParseError::Refused.message());
}

#[test]
fn an_exponent_of_many_digits_is_turned_away() {
    for input in [
        "1e99999999999999999999",
        "1e1234567890",
        "1E+1234567890",
        "2.5e-0000000001",
        "[1, {\"a\": 1E0000000000}]",
        "\"in a string: e1234567890\"",
        "e-12345678901",
    ] {
        assert!(!is_parseable(input), "{:?}", input);
        assert_eq!(Err(ParseError::Refused), Value::from_str(input), "{:?}", input);
    }
    assert_eq!(
        Some(PayloadError::Syntax(ParseError::Refused)),
        Payload::from_text("{\"job\": 1e99999999999999999999}").err()
    );
}

#[test]
fn a_comma_before_a_closing_brace_is_turned_away() {
    for input in [
        "[{\"a\":{\"a\":1,},1",
        "[{\"o\":{\"b\":1,},\"x\"}]",
        "{\"a\": 1,}",
        "{\"a\": 1, \n\t\r }",
        "\"in a string: ,}\"",
        ",}",
    ] {
        assert!(!is_parseable(input), "{:?}", input);
        assert_eq!(Err(ParseError::Refused), Value::from_str(input), "{:?}", input);
    }
    for input in ["[1,]", "{\"a\": [1, 2]}", "{},{}", "\", x }\"", "{\"a\": 1 , \"b\": {}}"] {
        assert!(is_parseable(input), "{:?}", input);
    }
    assert!(Value::from_str("[1,]").is_err());
    assert!(Value::from_str("{\"a\": 1 , \"b\": {}}").is_ok());
}

#[test]
fn an_exponent_of_few_digits_is_parsed() {
    for input in ["1e999999999", "1E+999999999", "2.5e-000000001", "0e0", "1.5", "-1e-5"] {
        assert!(is_parseable(input), "{:?}", input);
        assert_eq!(Ok(Value::F64), Value::from_str(input), "{:?}", input);
    }
    assert_eq!(9, MAX_EXPONENT_DIGITS);
}

#[test]
fn many_digits_that_are_no_exponent_are_parsed() {
    assert_eq!(Ok(Value::U64(18446744073709551615)), Value::from_str("18446744073709551615"));
    assert_eq!(Ok(text("1234567890123")), Value::from_str("\"1234567890123\""));
    assert_eq!(Ok(text("e+-1234567890")), Value::from_str("\"e+-1234567890\""));
    assert_eq!(Ok(text("1e5x1234567890")), Value::from_str("\"1e5x1234567890\""));
    assert_eq!(Ok(text("e 1234567890")), Value::from_str("\"e 1234567890\""));
    assert!(is_parseable("1234567890e"));
    assert!(is_parseable("+1234567890"));
}

#[test]
fn a_payload_is_read_from_a_text() {
    let input = "{\"repository\":{\"slug\":\"henrikhodne/test\",\"source_url\":\"git://github.com/henrikhodne/test.git\"},\"job\":{\"commit\":\"abcdef\",\"branch\":\"master\",\"pull_request\":false},\"config\":{\"language\":\"rust\",\"os\":\"linux\"}}";
    let payload = Payload::from_text(input).unwrap();
    assert_eq!("henrikhodne/test", payload.repository.slug);
    assert_eq!("master", payload.job.branch);
    assert_eq!("abcdef", payload.job.commit);
    assert!(!payload.job.pull_request);
    assert_eq!("rust", payload.config.language);
}

#[test]
fn a_text_that_is_no_payload_is_told_apart() {
    assert!(matches!(
        Payload::from_text("{"),
        Err(PayloadError::Syntax(ParseError::Syntax(_)))
    ));
    assert_eq!(
        Some(PayloadError::Shape(wrong("payload", Kind::Object))),
        Payload::from_text("[]").err()
    );
    assert_eq!(
        Some(PayloadError::Shape(missing("job"))),
        Payload::from_text("{\"repository\": {}}").err()
    );
}
