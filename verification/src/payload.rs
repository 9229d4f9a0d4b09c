//! The description of a job: what to build, and how.

use vstd::prelude::*;
use vstd::string::StringExecFns;
use crate::json::{ParseError, Value, ValueView, parseable, parsed};
use crate::text::same_text;

verus! {

/// How the sources are fetched.
#[derive(Debug, Clone, Copy, PartialEq, Eq, Structural)]
pub enum GitStrategy {
    Clone,
    Tarball,
}

/// How git is used.
#[derive(Debug, Clone, Copy, PartialEq, Eq, Structural)]
pub struct GitConfig {
    /// How many commits of history to fetch.
    pub depth: u64,
    /// Whether to check out the submodules.
    pub submodules: bool,
    /// How many commits of history to fetch for each submodule; all of
    /// it where there is no number.
    pub submodules_depth: Option<u64>,
    pub strategy: GitStrategy,
}

/// The build configuration.
#[derive(Debug)]
pub struct Config {
    pub language: String,
    pub git: GitConfig,
    /// The services to start before the build.
    pub services: Vec<String>,
}

/// The repository to build.
#[derive(Debug)]
pub struct Repository {
    /// Owner and name, with a slash between them.
    pub slug: String,
    pub source_url: String,
}

/// The commit to build.
#[derive(Debug)]
pub struct Job {
    pub branch: String,
    pub commit: String,
    /// The ref to fetch, where the commit is not on a branch.
    pub git_ref: Option<String>,
    pub pull_request: bool,
}

/// All that is known of a job.
#[derive(Debug)]
pub struct Payload {
    pub job: Job,
    pub repository: Repository,
    pub config: Config,
    /// Whether to take away the means of becoming root.
    pub paranoid: bool,
    pub fix_resolv_conf: bool,
    pub fix_etc_hosts: bool,
}

/// The view of a [`Config`].
pub struct ConfigView {
    pub language: Seq<char>,
    pub git: GitConfig,
    pub services: Seq<Seq<char>>,
}

/// The view of a [`Repository`].
pub struct RepositoryView {
    pub slug: Seq<char>,
    pub source_url: Seq<char>,
}

/// The view of a [`Job`].
pub struct JobView {
    pub branch: Seq<char>,
    pub commit: Seq<char>,
    pub git_ref: Option<Seq<char>>,
    pub pull_request: bool,
}

/// The view of a [`Payload`].
pub struct PayloadView {
    pub job: JobView,
    pub repository: RepositoryView,
    pub config: ConfigView,
    pub paranoid: bool,
    pub fix_resolv_conf: bool,
    pub fix_etc_hosts: bool,
}

impl View for Config {
    type V = ConfigView;

    open spec fn view(&self) -> ConfigView {
        ConfigView {
            language: self.language@,
            git: self.git,
            services: Seq::new(self.services@.len(), |i: int| self.services@[i]@),
        }
    }
}

impl View for Repository {
    type V = RepositoryView;

    open spec fn view(&self) -> RepositoryView {
        RepositoryView { slug: self.slug@, source_url: self.source_url@ }
    }
}

impl View for Job {
    type V = JobView;

    open spec fn view(&self) -> JobView {
        JobView {
            branch: self.branch@,
            commit: self.commit@,
            git_ref: match self.git_ref {
                Some(text) => Some(text@),
                None => None,
            },
            pull_request: self.pull_request,
        }
    }
}

impl View for Payload {
    type V = PayloadView;

    open spec fn view(&self) -> PayloadView {
        PayloadView {
            job: self.job@,
            repository: self.repository@,
            config: self.config@,
            paranoid: self.paranoid,
            fix_resolv_conf: self.fix_resolv_conf,
            fix_etc_hosts: self.fix_etc_hosts,
        }
    }
}

/// The git configuration of a job that gives none.
pub open spec fn default_git_config() -> GitConfig {
    GitConfig { depth: 50, submodules: true, submodules_depth: None, strategy: GitStrategy::Clone }
}

impl GitConfig {
    /// The git configuration of a job that gives none: fifty commits of
    /// history, submodules with all of theirs, fetched by cloning.
    pub fn default() -> (config: GitConfig)
        ensures
            config == default_git_config(),
    {
        GitConfig {
            depth: 50,
            submodules: true,
            submodules_depth: None,
            strategy: GitStrategy::Clone,
        }
    }
}

/// A kind of JSON value that a field can be asked to have.
#[derive(Debug, Clone, Copy, PartialEq, Eq, Structural)]
pub enum Kind {
    Object,
    String,
    Boolean,
    /// An integer that is not negative.
    Number,
    /// An array of strings.
    StringList,
}

/// Why a JSON value is no job description: the first fault found in it.
#[derive(Debug, PartialEq, Eq)]
pub enum DecodeError {
    /// The field is not there.
    MissingField(String),
    /// The field has a value of another kind than the one named.
    WrongKind(String, Kind),
    /// The git strategy is none of those that exist.
    UnknownStrategy,
}

/// The view of a [`DecodeError`].
pub enum DecodeErrorView {
    MissingField(Seq<char>),
    WrongKind(Seq<char>, Kind),
    UnknownStrategy,
}

impl View for DecodeError {
    type V = DecodeErrorView;

    open spec fn view(&self) -> DecodeErrorView {
        match self {
            DecodeError::MissingField(field) => DecodeErrorView::MissingField(field@),
            DecodeError::WrongKind(field, kind) => DecodeErrorView::WrongKind(field@, *kind),
            DecodeError::UnknownStrategy => DecodeErrorView::UnknownStrategy,
        }
    }
}

/// The view of the result of a decoding.
pub open spec fn decoded<T: View>(result: Result<T, DecodeError>) -> Result<T::V, DecodeErrorView> {
    match result {
        Ok(value) => Ok(value@),
        Err(error) => Err(error@),
    }
}

/// The words that name a kind in a message.
pub open spec fn kind_words(kind: Kind) -> Seq<char> {
    match kind {
        Kind::Object => "an object"@,
        Kind::String => "a string"@,
        Kind::Boolean => "a boolean"@,
        Kind::Number => "a number"@,
        Kind::StringList => "a list of strings"@,
    }
}

/// The message of an error.
pub open spec fn error_message(error: DecodeErrorView) -> Seq<char> {
    match error {
        DecodeErrorView::MissingField(field) => "missing field "@ + field,
        DecodeErrorView::WrongKind(field, kind) => field + " must be "@ + kind_words(kind),
        DecodeErrorView::UnknownStrategy => "git.strategy unknown"@,
    }
}

impl DecodeError {
    /// The error in words.
    pub fn message(&self) -> (text: String)
        ensures
            text@ == error_message(self@),
    {
        match self {
            DecodeError::MissingField(field) => {
                let mut text = String::from_str("missing field ");
                text.append(field.as_str());
                text
            },
            DecodeError::WrongKind(field, kind) => {
                let mut text = field.clone();
                text.append(" must be ");
                text.append(
                    match kind {
                        Kind::Object => "an object",
                        Kind::String => "a string",
                        Kind::Boolean => "a boolean",
                        Kind::Number => "a number",
                        Kind::StringList => "a list of strings",
                    },
                );
                text
            },
            DecodeError::UnknownStrategy => String::from_str("git.strategy unknown"),
        }
    }
}

/// The text under `key`. The field has to be there.
pub open spec fn required_text(json: ValueView, key: Seq<char>) -> Result<
    Seq<char>,
    DecodeErrorView,
> {
    match json.find(key) {
        None => Err(DecodeErrorView::MissingField(key)),
        Some(value) => match value.as_string() {
            Some(text) => Ok(text),
            None => Err(DecodeErrorView::WrongKind(key, Kind::String)),
        },
    }
}

/// The text under `key`, if the field is there.
pub open spec fn optional_text(json: ValueView, key: Seq<char>) -> Result<
    Option<Seq<char>>,
    DecodeErrorView,
> {
    match json.find(key) {
        None => Ok(None),
        Some(value) => match value.as_string() {
            Some(text) => Ok(Some(text)),
            None => Err(DecodeErrorView::WrongKind(key, Kind::String)),
        },
    }
}

/// The text under `key`, or `default` where the field is not there.
pub open spec fn text_or(json: ValueView, key: Seq<char>, default: Seq<char>) -> Result<
    Seq<char>,
    DecodeErrorView,
> {
    match json.find(key) {
        None => Ok(default),
        Some(value) => match value.as_string() {
            Some(text) => Ok(text),
            None => Err(DecodeErrorView::WrongKind(key, Kind::String)),
        },
    }
}

/// The truth value under `key`. The field has to be there.
pub open spec fn required_boolean(json: ValueView, key: Seq<char>) -> Result<
    bool,
    DecodeErrorView,
> {
    match json.find(key) {
        None => Err(DecodeErrorView::MissingField(key)),
        Some(value) => match value.as_boolean() {
            Some(b) => Ok(b),
            None => Err(DecodeErrorView::WrongKind(key, Kind::Boolean)),
        },
    }
}

/// The truth value under `key`, or `default` where the field is not there.
pub open spec fn boolean_or(json: ValueView, key: Seq<char>, default: bool) -> Result<
    bool,
    DecodeErrorView,
> {
    match json.find(key) {
        None => Ok(default),
        Some(value) => match value.as_boolean() {
            Some(b) => Ok(b),
            None => Err(DecodeErrorView::WrongKind(key, Kind::Boolean)),
        },
    }
}

/// The number under `key`, if the field is there.
pub open spec fn optional_number(json: ValueView, key: Seq<char>) -> Result<
    Option<u64>,
    DecodeErrorView,
> {
    match json.find(key) {
        None => Ok(None),
        Some(value) => match value.as_u64() {
            Some(n) => Ok(Some(n)),
            None => Err(DecodeErrorView::WrongKind(key, Kind::Number)),
        },
    }
}

/// The number under `key`, or `default` where the field is not there.
pub open spec fn number_or(json: ValueView, key: Seq<char>, default: u64) -> Result<
    u64,
    DecodeErrorView,
> {
    match json.find(key) {
        None => Ok(default),
        Some(value) => match value.as_u64() {
            Some(n) => Ok(n),
            None => Err(DecodeErrorView::WrongKind(key, Kind::Number)),
        },
    }
}

/// The strategy that a value names. A value that is no string names the
/// strategy `Clone`.
pub open spec fn decode_strategy(json: ValueView) -> Result<GitStrategy, DecodeErrorView> {
    match json.as_string() {
        None => Ok(GitStrategy::Clone),
        Some(name) => if name == "tarball"@ {
            Ok(GitStrategy::Tarball)
        } else if name == "clone"@ {
            Ok(GitStrategy::Clone)
        } else {
            Err(DecodeErrorView::UnknownStrategy)
        },
    }
}

/// The git configuration that a value describes. Each field has a default;
/// the first field of a wrong kind is the error.
pub open spec fn decode_git_config(json: ValueView) -> Result<GitConfig, DecodeErrorView> {
    match (match json.find("strategy"@) {
        Some(value) => decode_strategy(value),
        None => Ok(GitStrategy::Clone),
    }) {
        Err(error) => Err(error),
        Ok(strategy) => match number_or(json, "depth"@, 50) {
            Err(error) => Err(error),
            Ok(depth) => match boolean_or(json, "submodules"@, true) {
                Err(error) => Err(error),
                Ok(submodules) => match optional_number(json, "submodules_depth"@) {
                    Err(error) => Err(error),
                    Ok(submodules_depth) => Ok(
                        GitConfig { depth, submodules, submodules_depth, strategy },
                    ),
                },
            },
        },
    }
}

/// Whether every item is a string.
pub open spec fn all_strings(items: Seq<ValueView>) -> bool {
    forall|i: int| 0 <= i < items.len() ==> (#[trigger] items[i]) is String
}

/// The services that a value names: none where it has no field
/// `services`, else the strings of that field, which has to be an array of
/// strings.
pub open spec fn decode_services(json: ValueView) -> Result<Seq<Seq<char>>, DecodeErrorView> {
    match json.find("services"@) {
        None => Ok(Seq::empty()),
        Some(value) => match value.as_array() {
            Some(items) => if all_strings(items) {
                Ok(Seq::new(items.len(), |i: int| items[i]->String_0))
            } else {
                Err(DecodeErrorView::WrongKind("config.services"@, Kind::StringList))
            },
            None => Err(DecodeErrorView::WrongKind("config.services"@, Kind::StringList)),
        },
    }
}

/// The configuration that a value describes. Each field has a default: no
/// services, the language `ruby`, the default git configuration.
pub open spec fn decode_config(json: ValueView) -> Result<ConfigView, DecodeErrorView> {
    match decode_services(json) {
        Err(error) => Err(error),
        Ok(services) => match text_or(json, "language"@, "ruby"@) {
            Err(error) => Err(error),
            Ok(language) => match (match json.find("git"@) {
                Some(value) => decode_git_config(value),
                None => Ok(default_git_config()),
            }) {
                Err(error) => Err(error),
                Ok(git) => Ok(ConfigView { language, git, services }),
            },
        },
    }
}

/// The repository that a value describes: an object with a slug and a
/// source URL.
pub open spec fn decode_repository(json: ValueView) -> Result<RepositoryView, DecodeErrorView> {
    if !(json is Object) {
        Err(DecodeErrorView::WrongKind("repository"@, Kind::Object))
    } else {
        match required_text(json, "slug"@) {
            Err(error) => Err(error),
            Ok(slug) => match required_text(json, "source_url"@) {
                Err(error) => Err(error),
                Ok(source_url) => Ok(RepositoryView { slug, source_url }),
            },
        }
    }
}

/// The job that a value describes: an object with a branch, a commit, a
/// ref if it has one, and the pull-request flag.
pub open spec fn decode_job(json: ValueView) -> Result<JobView, DecodeErrorView> {
    if !(json is Object) {
        Err(DecodeErrorView::WrongKind("job"@, Kind::Object))
    } else {
        match required_text(json, "branch"@) {
            Err(error) => Err(error),
            Ok(branch) => match required_text(json, "commit"@) {
                Err(error) => Err(error),
                Ok(commit) => match optional_text(json, "ref"@) {
                    Err(error) => Err(error),
                    Ok(git_ref) => match required_boolean(json, "pull_request"@) {
                        Err(error) => Err(error),
                        Ok(pull_request) => Ok(JobView { branch, commit, git_ref, pull_request }),
                    },
                },
            },
        }
    }
}

/// What stands under `key`, decoded by `decode`. The field has to be
/// there.
pub open spec fn required_member<T>(
    json: ValueView,
    key: Seq<char>,
    decode: spec_fn(ValueView) -> Result<T, DecodeErrorView>,
) -> Result<T, DecodeErrorView> {
    match json.find(key) {
        None => Err(DecodeErrorView::MissingField(key)),
        Some(value) => decode(value),
    }
}

/// The payload that a value describes: an object with a job, a
/// repository and a configuration. The three flags have defaults: not
/// paranoid, and both repairs skipped.
pub open spec fn decode_payload(json: ValueView) -> Result<PayloadView, DecodeErrorView> {
    if !(json is Object) {
        Err(DecodeErrorView::WrongKind("payload"@, Kind::Object))
    } else {
        match required_member(json, "job"@, |value: ValueView| decode_job(value)) {
            Err(error) => Err(error),
            Ok(job) => match required_member(
                json,
                "repository"@,
                |value: ValueView| decode_repository(value),
            ) {
                Err(error) => Err(error),
                Ok(repository) => match required_member(
                    json,
                    "config"@,
                    |value: ValueView| decode_config(value),
                ) {
                    Err(error) => Err(error),
                    Ok(config) => match boolean_or(json, "paranoid"@, false) {
                        Err(error) => Err(error),
                        Ok(paranoid) => match boolean_or(json, "skip_resolv_updates"@, true) {
                            Err(error) => Err(error),
                            Ok(skip_resolv) => match boolean_or(
                                json,
                                "skip_etc_hosts_fix"@,
                                true,
                            ) {
                                Err(error) => Err(error),
                                Ok(skip_hosts) => Ok(
                                    PayloadView {
                                        job,
                                        repository,
                                        config,
                                        paranoid,
                                        fix_resolv_conf: !skip_resolv,
                                        fix_etc_hosts: !skip_hosts,
                                    },
                                ),
                            },
                        },
                    },
                },
            },
        }
    }
}

/// The result of a decoding that gives a text.
pub open spec fn decoded_text(result: Result<String, DecodeError>) -> Result<
    Seq<char>,
    DecodeErrorView,
> {
    match result {
        Ok(text) => Ok(text@),
        Err(error) => Err(error@),
    }
}

/// The result of a decoding that gives a value that is its own view.
pub open spec fn decoded_plain<T>(result: Result<T, DecodeError>) -> Result<T, DecodeErrorView> {
    match result {
        Ok(value) => Ok(value),
        Err(error) => Err(error@),
    }
}

fn get_text(json: &Value, key: &str) -> (result: Result<String, DecodeError>)
    ensures
        decoded_text(result) == required_text(json@, key@),
{
    match json.find(key) {
        None => Err(DecodeError::MissingField(String::from_str(key))),
        Some(value) => match value.as_string() {
            Some(text) => Ok(String::from_str(text)),
            None => Err(DecodeError::WrongKind(String::from_str(key), Kind::String)),
        },
    }
}

fn get_text_or(json: &Value, key: &str, default: &str) -> (result: Result<String, DecodeError>)
    ensures
        decoded_text(result) == text_or(json@, key@, default@),
{
    match json.find(key) {
        None => Ok(String::from_str(default)),
        Some(value) => match value.as_string() {
            Some(text) => Ok(String::from_str(text)),
            None => Err(DecodeError::WrongKind(String::from_str(key), Kind::String)),
        },
    }
}

fn get_optional_text(json: &Value, key: &str) -> (result: Result<Option<String>, DecodeError>)
    ensures
        match result {
            Ok(Some(text)) => optional_text(json@, key@) == Ok::<
                Option<Seq<char>>,
                DecodeErrorView,
            >(Some(text@)),
            Ok(None) => optional_text(json@, key@) == Ok::<Option<Seq<char>>, DecodeErrorView>(
                None,
            ),
            Err(error) => optional_text(json@, key@) == Err::<
                Option<Seq<char>>,
                DecodeErrorView,
            >(error@),
        },
{
    match json.find(key) {
        None => Ok(None),
        Some(value) => match value.as_string() {
            Some(text) => Ok(Some(String::from_str(text))),
            None => Err(DecodeError::WrongKind(String::from_str(key), Kind::String)),
        },
    }
}

fn get_boolean(json: &Value, key: &str) -> (result: Result<bool, DecodeError>)
    ensures
        decoded_plain(result) == required_boolean(json@, key@),
{
    match json.find(key) {
        None => Err(DecodeError::MissingField(String::from_str(key))),
        Some(value) => match value.as_boolean() {
            Some(b) => Ok(b),
            None => Err(DecodeError::WrongKind(String::from_str(key), Kind::Boolean)),
        },
    }
}

fn get_boolean_or(json: &Value, key: &str, default: bool) -> (result: Result<bool, DecodeError>)
    ensures
        decoded_plain(result) == boolean_or(json@, key@, default),
{
    match json.find(key) {
        None => Ok(default),
        Some(value) => match value.as_boolean() {
            Some(b) => Ok(b),
            None => Err(DecodeError::WrongKind(String::from_str(key), Kind::Boolean)),
        },
    }
}

fn get_optional_number(json: &Value, key: &str) -> (result: Result<Option<u64>, DecodeError>)
    ensures
        decoded_plain(result) == optional_number(json@, key@),
{
    match json.find(key) {
        None => Ok(None),
        Some(value) => match value.as_u64() {
            Some(n) => Ok(Some(n)),
            None => Err(DecodeError::WrongKind(String::from_str(key), Kind::Number)),
        },
    }
}

fn get_number_or(json: &Value, key: &str, default: u64) -> (result: Result<u64, DecodeError>)
    ensures
        decoded_plain(result) == number_or(json@, key@, default),
{
    match json.find(key) {
        None => Ok(default),
        Some(value) => match value.as_u64() {
            Some(n) => Ok(n),
            None => Err(DecodeError::WrongKind(String::from_str(key), Kind::Number)),
        },
    }
}

fn get_services(json: &Value) -> (result: Result<Vec<String>, DecodeError>)
    ensures
        match result {
            Ok(services) => decode_services(json@) == Ok::<Seq<Seq<char>>, DecodeErrorView>(
                Seq::new(services@.len(), |i: int| services@[i]@),
            ),
            Err(error) => decode_services(json@) == Err::<Seq<Seq<char>>, DecodeErrorView>(
                error@,
            ),
        },
{
    let mut services: Vec<String> = Vec::new();
    match json.find("services") {
        None => {
            assert(Seq::new(services@.len(), |i: int| services@[i]@) =~= Seq::<
                Seq<char>,
            >::empty());
            Ok(services)
        },
        Some(value) => match value.as_array() {
            Some(items) => {
                let ghost views = value@->Array_0;
                for i in 0..items.len()
                    invariant
                        json@.find("services"@) == Some(value@),
                        value@ == ValueView::Array(views),
                        views == Seq::new(items@.len(), |k: int| items@[k]@),
                        services@.len() == i,
                        forall|k: int| 0 <= k < i ==> (#[trigger] views[k]) is String,
                        forall|k: int| 0 <= k < i ==> views[k]->String_0 == services@[k]@,
                {
                    match items[i].as_string() {
                        Some(text) => {
                            services.push(String::from_str(text));
                        },
                        None => {
                            assert(!(views[i as int] is String));
                            return Err(
                                DecodeError::WrongKind(
                                    String::from_str("config.services"),
                                    Kind::StringList,
                                ),
                            );
                        },
                    }
                }
                assert(Seq::new(services@.len(), |i: int| services@[i]@) =~= Seq::new(
                    views.len(),
                    |i: int| views[i]->String_0,
                ));
                Ok(services)
            },
            None => Err(
                DecodeError::WrongKind(String::from_str("config.services"), Kind::StringList),
            ),
        },
    }
}

impl GitStrategy {
    /// The strategy that a value names.
    pub fn from_json(j: &Value) -> (result: Result<GitStrategy, DecodeError>)
        ensures
            decoded_plain(result) == decode_strategy(j@),
    {
        match j.as_string() {
            None => Ok(GitStrategy::Clone),
            Some(name) => if same_text(name, "tarball") {
                Ok(GitStrategy::Tarball)
            } else if same_text(name, "clone") {
                Ok(GitStrategy::Clone)
            } else {
                Err(DecodeError::UnknownStrategy)
            },
        }
    }
}

impl GitConfig {
    /// The git configuration that a value describes.
    pub fn from_json(j: &Value) -> (result: Result<GitConfig, DecodeError>)
        ensures
            decoded_plain(result) == decode_git_config(j@),
    {
        let strategy = match j.find("strategy") {
            Some(value) => GitStrategy::from_json(value),
            None => Ok(GitStrategy::Clone),
        };
        let strategy = match strategy {
            Ok(strategy) => strategy,
            Err(error) => {
                return Err(error);
            },
        };
        let depth = match get_number_or(j, "depth", 50) {
            Ok(depth) => depth,
            Err(error) => {
                return Err(error);
            },
        };
        let submodules = match get_boolean_or(j, "submodules", true) {
            Ok(submodules) => submodules,
            Err(error) => {
                return Err(error);
            },
        };
        let submodules_depth = match get_optional_number(j, "submodules_depth") {
            Ok(submodules_depth) => submodules_depth,
            Err(error) => {
                return Err(error);
            },
        };
        Ok(GitConfig { depth, submodules, submodules_depth, strategy })
    }
}

impl Config {
    /// The configuration that a value describes.
    pub fn from_json(j: &Value) -> (result: Result<Config, DecodeError>)
        ensures
            decoded(result) == decode_config(j@),
    {
        let services = match get_services(j) {
            Ok(services) => services,
            Err(error) => {
                return Err(error);
            },
        };
        let language = match get_text_or(j, "language", "ruby") {
            Ok(language) => language,
            Err(error) => {
                return Err(error);
            },
        };
        let git = match j.find("git") {
            Some(value) => GitConfig::from_json(value),
            None => Ok(GitConfig::default()),
        };
        let git = match git {
            Ok(git) => git,
            Err(error) => {
                return Err(error);
            },
        };
        Ok(Config { language, git, services })
    }
}

impl Repository {
    /// The repository that a value describes.
    pub fn from_json(j: &Value) -> (result: Result<Repository, DecodeError>)
        ensures
            decoded(result) == decode_repository(j@),
    {
        if !j.is_object() {
            return Err(DecodeError::WrongKind(String::from_str("repository"), Kind::Object));
        }
        let slug = match get_text(j, "slug") {
            Ok(slug) => slug,
            Err(error) => {
                return Err(error);
            },
        };
        let source_url = match get_text(j, "source_url") {
            Ok(source_url) => source_url,
            Err(error) => {
                return Err(error);
            },
        };
        Ok(Repository { slug, source_url })
    }
}

impl Job {
    /// The job that a value describes.
    pub fn from_json(j: &Value) -> (result: Result<Job, DecodeError>)
        ensures
            decoded(result) == decode_job(j@),
    {
        if !j.is_object() {
            return Err(DecodeError::WrongKind(String::from_str("job"), Kind::Object));
        }
        let branch = match get_text(j, "branch") {
            Ok(branch) => branch,
            Err(error) => {
                return Err(error);
            },
        };
        let commit = match get_text(j, "commit") {
            Ok(commit) => commit,
            Err(error) => {
                return Err(error);
            },
        };
        let git_ref = match get_optional_text(j, "ref") {
            Ok(git_ref) => git_ref,
            Err(error) => {
                return Err(error);
            },
        };
        let pull_request = match get_boolean(j, "pull_request") {
            Ok(pull_request) => pull_request,
            Err(error) => {
                return Err(error);
            },
        };
        Ok(Job { branch, commit, git_ref, pull_request })
    }
}

impl Payload {
    /// The payload that a value describes, or the first fault found in
    /// the value.
    pub fn from_json(j: &Value) -> (result: Result<Payload, DecodeError>)
        ensures
            decoded(result) == decode_payload(j@),
    {
        if !j.is_object() {
            return Err(DecodeError::WrongKind(String::from_str("payload"), Kind::Object));
        }
        let job = match j.find("job") {
            Some(value) => Job::from_json(value),
            None => Err(DecodeError::MissingField(String::from_str("job"))),
        };
        let job = match job {
            Ok(job) => job,
            Err(error) => {
                return Err(error);
            },
        };
        let repository = match j.find("repository") {
            Some(value) => Repository::from_json(value),
            None => Err(DecodeError::MissingField(String::from_str("repository"))),
        };
        let repository = match repository {
            Ok(repository) => repository,
            Err(error) => {
                return Err(error);
            },
        };
        let config = match j.find("config") {
            Some(value) => Config::from_json(value),
            None => Err(DecodeError::MissingField(String::from_str("config"))),
        };
        let config = match config {
            Ok(config) => config,
            Err(error) => {
                return Err(error);
            },
        };
        let paranoid = match get_boolean_or(j, "paranoid", false) {
            Ok(paranoid) => paranoid,
            Err(error) => {
                return Err(error);
            },
        };
        let skip_resolv = match get_boolean_or(j, "skip_resolv_updates", true) {
            Ok(skip) => skip,
            Err(error) => {
                return Err(error);
            },
        };
        let skip_hosts = match get_boolean_or(j, "skip_etc_hosts_fix", true) {
            Ok(skip) => skip,
            Err(error) => {
                return Err(error);
            },
        };
        Ok(
            Payload {
                job,
                repository,
                config,
                paranoid,
                fix_resolv_conf: !skip_resolv,
                fix_etc_hosts: !skip_hosts,
            },
        )
    }
}

/// Why a text is no job description.
#[derive(Debug, PartialEq, Eq)]
pub enum PayloadError {
    /// The text gave no JSON value: it is not one for the parser, or no
    /// JSON document.
    Syntax(ParseError),
    /// The document describes no job.
    Shape(DecodeError),
}

/// What reading a text as a payload gives: nothing where the text is not
/// one for the parser or no JSON document, else what decoding the
/// document gives.
pub open spec fn payload_of_text(text: Seq<char>) -> Option<Result<PayloadView, DecodeErrorView>> {
    if !parseable(text) {
        None
    } else {
        match parsed(text) {
            None => None,
            Some(document) => Some(decode_payload(document)),
        }
    }
}

impl Payload {
    /// The payload that a JSON text describes. The text has to be a JSON
    /// document that the parser takes, and the document a job description;
    /// the error says which of the two it is not, and why.
    pub fn from_text(text: &str) -> (result: Result<Payload, PayloadError>)
        ensures
            match result {
                Ok(payload) => payload_of_text(text@) == Some(
                    Ok::<PayloadView, DecodeErrorView>(payload@),
                ),
                Err(PayloadError::Shape(error)) => payload_of_text(text@) == Some(
                    Err::<PayloadView, DecodeErrorView>(error@),
                ),
                Err(PayloadError::Syntax(ParseError::Refused)) => !parseable(text@),
                Err(PayloadError::Syntax(ParseError::Syntax(_))) => parseable(text@) && parsed(
                    text@,
                ) is None,
            },
    {
        match Value::from_str(text) {
            Err(error) => Err(PayloadError::Syntax(error)),
            Ok(document) => match Payload::from_json(&document) {
                Ok(payload) => Ok(payload),
                Err(error) => Err(PayloadError::Shape(error)),
            },
        }
    }
}

} // verus!
