//! Configuration from environment variables.

use vstd::prelude::*;

use crate::cloud_init::DEFAULT_AGENT_ARGS;
use crate::seqs::{find_first, lemma_find_first_at, lemma_find_first_none, views};
use crate::text::{parse_unsigned, same_text, unsigned_number};

verus! {

#[derive(Debug)]
pub enum ConfigError {
    MissingEnvVar(String),
    InvalidValue(String, String),
}

pub enum ConfigErrorView {
    MissingEnvVar(Seq<char>),
    InvalidValue(Seq<char>, Seq<char>),
}

impl View for ConfigError {
    type V = ConfigErrorView;

    open spec fn view(&self) -> ConfigErrorView {
        match *self {
            ConfigError::MissingEnvVar(key) => ConfigErrorView::MissingEnvVar(key@),
            ConfigError::InvalidValue(key, value) => ConfigErrorView::InvalidValue(key@, value@),
        }
    }
}

impl ConfigErrorView {
    pub open spec fn text(self) -> Seq<char> {
        match self {
            ConfigErrorView::MissingEnvVar(key) => "missing required environment variable: "@
                + key,
            ConfigErrorView::InvalidValue(key, value) => "invalid value for "@ + key + ": "@
                + value,
        }
    }
}

impl ConfigError {
    /// The error in words.
    pub fn to_string(&self) -> (r: String)
        ensures
            r@ == self@.text(),
    {
        match self {
            ConfigError::MissingEnvVar(key) => {
                let mut r = "missing required environment variable: ".to_owned();
                r.append(key.as_str());
                r
            },
            ConfigError::InvalidValue(key, value) => {
                let mut r = "invalid value for ".to_owned();
                r.append(key.as_str());
                r.append(": ");
                r.append(value.as_str());
                r
            },
        }
    }
}

/// One environment variable.
#[derive(Debug, Clone)]
pub struct EnvVar {
    pub name: String,
    pub value: String,
}

pub struct EnvVarView {
    pub name: Seq<char>,
    pub value: Seq<char>,
}

impl View for EnvVar {
    type V = EnvVarView;

    open spec fn view(&self) -> EnvVarView {
        EnvVarView { name: self.name@, value: self.value@ }
    }
}

/// The environment variables at one moment, those whose value is not text left out.
#[derive(Debug, Clone)]
pub struct Environment {
    pub vars: Vec<EnvVar>,
}

impl View for Environment {
    type V = Seq<EnvVarView>;

    open spec fn view(&self) -> Seq<EnvVarView> {
        views(self.vars@)
    }
}

pub open spec fn var_named(name: Seq<char>) -> spec_fn(EnvVarView) -> bool {
    |v: EnvVarView| v.name == name
}

/// The value of a variable, if it is set.
pub open spec fn value_of(env: Seq<EnvVarView>, key: Seq<char>) -> Option<Seq<char>> {
    match find_first(env, var_named(key)) {
        Some(v) => Some(v.value),
        None => None,
    }
}

/// The text of a variable, or the default where it is not set.
pub open spec fn text_or(env: Seq<EnvVarView>, key: Seq<char>, default: Seq<char>) -> Seq<char> {
    match value_of(env, key) {
        Some(value) => value,
        None => default,
    }
}

/// The number that a variable spells, or the default where it is not set.
pub open spec fn number_or(env: Seq<EnvVarView>, key: Seq<char>, default: int) -> int {
    match value_of(env, key) {
        Some(value) => unsigned_number(value).unwrap(),
        None => default,
    }
}

/// What is wrong with a number: the variable is set to something else than a number of at most
/// `max`.
pub open spec fn number_error(env: Seq<EnvVarView>, key: Seq<char>, max: int) -> Option<
    ConfigErrorView,
> {
    match value_of(env, key) {
        Some(value) => match unsigned_number(value) {
            Some(n) => if n <= max {
                None
            } else {
                Some(ConfigErrorView::InvalidValue(key, value))
            },
            None => Some(ConfigErrorView::InvalidValue(key, value)),
        },
        None => None,
    }
}

/// What is wrong with a variable that has to be set: it is not.
pub open spec fn missing_error(env: Seq<EnvVarView>, key: Seq<char>) -> Option<ConfigErrorView> {
    match value_of(env, key) {
        Some(_) => None,
        None => Some(ConfigErrorView::MissingEnvVar(key)),
    }
}

/// The first of the errors, if there is one.
pub open spec fn first_of(errors: Seq<Option<ConfigErrorView>>) -> Option<ConfigErrorView>
    decreases errors.len(),
{
    if errors.len() == 0 {
        None
    } else if errors[0] is Some {
        errors[0]
    } else {
        first_of(errors.drop_first())
    }
}

/// The first thing that is wrong with the environment: the numbers are looked at first, then the
/// variables that have to be set.
pub open spec fn config_error(env: Seq<EnvVarView>) -> Option<ConfigErrorView> {
    first_of(
        seq![
            number_error(env, "POLL_INTERVAL_SECS"@, u64::MAX as int),
            number_error(env, "MAX_NODES"@, usize::MAX as int),
            number_error(env, "IDLE_TIMEOUT_MINS"@, u64::MAX as int),
            number_error(env, "BILLING_WINDOW_MINS"@, u64::MAX as int),
            number_error(env, "PROVISIONING_TIMEOUT_SECS"@, u64::MAX as int),
            missing_error(env, "HETZNER_API_TOKEN"@),
            missing_error(env, "CLUSTER_SECRET"@),
            missing_error(env, "GITEA_API_URL"@),
            missing_error(env, "GITEA_ADMIN_TOKEN"@),
            missing_error(env, "PUSHGATEWAY_URL"@),
        ],
    )
}

#[derive(Debug, Clone)]
pub struct Config {
    pub poll_interval_secs: u64,
    pub max_nodes: usize,
    pub idle_timeout_mins: u64,
    pub billing_window_mins: u64,
    pub provisioning_timeout_secs: u64,
    pub hetzner_server_type: String,
    pub hetzner_location: String,
    pub hetzner_image: String,
    pub hetzner_api_token: String,
    pub cluster_secret: String,
    pub gitea_api_url: String,
    pub gitea_admin_token: String,
    pub pushgateway_url: String,
    pub runner_namespace: String,
    pub k3s_agent_args: String,
}

pub struct ConfigView {
    pub poll_interval_secs: int,
    pub max_nodes: int,
    pub idle_timeout_mins: int,
    pub billing_window_mins: int,
    pub provisioning_timeout_secs: int,
    pub hetzner_server_type: Seq<char>,
    pub hetzner_location: Seq<char>,
    pub hetzner_image: Seq<char>,
    pub hetzner_api_token: Seq<char>,
    pub cluster_secret: Seq<char>,
    pub gitea_api_url: Seq<char>,
    pub gitea_admin_token: Seq<char>,
    pub pushgateway_url: Seq<char>,
    pub runner_namespace: Seq<char>,
    pub k3s_agent_args: Seq<char>,
}

impl View for Config {
    type V = ConfigView;

    open spec fn view(&self) -> ConfigView {
        ConfigView {
            poll_interval_secs: self.poll_interval_secs as int,
            max_nodes: self.max_nodes as int,
            idle_timeout_mins: self.idle_timeout_mins as int,
            billing_window_mins: self.billing_window_mins as int,
            provisioning_timeout_secs: self.provisioning_timeout_secs as int,
            hetzner_server_type: self.hetzner_server_type@,
            hetzner_location: self.hetzner_location@,
            hetzner_image: self.hetzner_image@,
            hetzner_api_token: self.hetzner_api_token@,
            cluster_secret: self.cluster_secret@,
            gitea_api_url: self.gitea_api_url@,
            gitea_admin_token: self.gitea_admin_token@,
            pushgateway_url: self.pushgateway_url@,
            runner_namespace: self.runner_namespace@,
            k3s_agent_args: self.k3s_agent_args@,
        }
    }
}

/// The configuration that an environment without errors spells out.
pub open spec fn configured(env: Seq<EnvVarView>) -> ConfigView {
    ConfigView {
        poll_interval_secs: number_or(env, "POLL_INTERVAL_SECS"@, 5),
        max_nodes: number_or(env, "MAX_NODES"@, 5),
        idle_timeout_mins: number_or(env, "IDLE_TIMEOUT_MINS"@, 5),
        billing_window_mins: number_or(env, "BILLING_WINDOW_MINS"@, 5),
        provisioning_timeout_secs: number_or(env, "PROVISIONING_TIMEOUT_SECS"@, 600),
        hetzner_server_type: text_or(env, "HETZNER_SERVER_TYPE"@, "ccx33"@),
        hetzner_location: text_or(env, "HETZNER_LOCATION"@, "nbg1"@),
        hetzner_image: text_or(env, "HETZNER_IMAGE"@, "ubuntu-24.04"@),
        hetzner_api_token: value_of(env, "HETZNER_API_TOKEN"@).unwrap(),
        cluster_secret: value_of(env, "CLUSTER_SECRET"@).unwrap(),
        gitea_api_url: value_of(env, "GITEA_API_URL"@).unwrap(),
        gitea_admin_token: value_of(env, "GITEA_ADMIN_TOKEN"@).unwrap(),
        pushgateway_url: value_of(env, "PUSHGATEWAY_URL"@).unwrap(),
        runner_namespace: text_or(env, "RUNNER_NAMESPACE"@, "gitea-runners"@),
        k3s_agent_args: text_or(env, "K3S_AGENT_ARGS"@, DEFAULT_AGENT_ARGS@),
    }
}

impl Environment {
    fn lookup(&self, key: &str) -> (r: Option<&String>)
        ensures
            match r {
                Some(value) => value_of(self@, key@) == Some(value@),
                None => value_of(self@, key@) is None,
            },
    {
        let ghost p = var_named(key@);
        let mut i: usize = 0;
        while i < self.vars.len()
            invariant
                0 <= i <= self.vars@.len(),
                p == var_named(key@),
                forall|j: int| 0 <= j < i ==> !p(#[trigger] self@[j]),
            decreases self.vars@.len() - i,
        {
            assert(self@[i as int] == self.vars@[i as int]@);
            if same_text(self.vars[i].name.as_str(), key) {
                proof {
                    lemma_find_first_at(self@, p, i as int);
                }
                return Some(&self.vars[i].value);
            }
            i = i + 1;
        }
        proof {
            lemma_find_first_none(self@, p);
        }
        None
    }
}

fn required_env(env: &Environment, key: &str) -> (r: Result<String, ConfigError>)
    ensures
        match r {
            Ok(value) => missing_error(env@, key@) is None && value_of(env@, key@) == Some(value@),
            Err(e) => missing_error(env@, key@) == Some(e@),
        },
{
    match env.lookup(key) {
        Some(value) => Ok(value.clone()),
        None => Err(ConfigError::MissingEnvVar(key.to_owned())),
    }
}

fn env_or(env: &Environment, key: &str, default: &str) -> (r: String)
    ensures
        r@ == text_or(env@, key@, default@),
{
    match env.lookup(key) {
        Some(value) => value.clone(),
        None => default.to_owned(),
    }
}

fn parse_env_or(env: &Environment, key: &str, default: u64, max: u64) -> (r: Result<
    u64,
    ConfigError,
>)
    requires
        default <= max,
    ensures
        match r {
            Ok(n) => {
                &&& number_error(env@, key@, max as int) is None
                &&& n == number_or(env@, key@, default as int)
                &&& n <= max
            },
            Err(e) => number_error(env@, key@, max as int) == Some(e@),
        },
{
    match env.lookup(key) {
        Some(value) => match parse_unsigned(value.as_str(), max) {
            Some(n) => Ok(n),
            None => Err(ConfigError::InvalidValue(key.to_owned(), value.clone())),
        },
        None => Ok(default),
    }
}

impl Config {
    /// Read the configuration from environment variables, or say what is wrong with them first.
    pub fn from_env(env: &Environment) -> (r: Result<Config, ConfigError>)
        ensures
            match r {
                Ok(config) => config_error(env@) is None && config@ == configured(env@),
                Err(e) => config_error(env@) == Some(e@),
            },
    {
        proof {
            reveal_with_fuel(first_of, 11);
        }
        let poll_interval_secs: u64 = parse_env_or(env, "POLL_INTERVAL_SECS", 5, u64::MAX)?;
        let max_nodes: u64 = parse_env_or(env, "MAX_NODES", 5, usize::MAX as u64)?;
        let idle_timeout_mins: u64 = parse_env_or(env, "IDLE_TIMEOUT_MINS", 5, u64::MAX)?;
        let billing_window_mins: u64 = parse_env_or(env, "BILLING_WINDOW_MINS", 5, u64::MAX)?;
        let provisioning_timeout_secs: u64 = parse_env_or(
            env,
            "PROVISIONING_TIMEOUT_SECS",
            600,
            u64::MAX,
        )?;
        Ok(
            Config {
                poll_interval_secs,
                max_nodes: max_nodes as usize,
                idle_timeout_mins,
                billing_window_mins,
                provisioning_timeout_secs,
                hetzner_server_type: env_or(env, "HETZNER_SERVER_TYPE", "ccx33"),
                hetzner_location: env_or(env, "HETZNER_LOCATION", "nbg1"),
                hetzner_image: env_or(env, "HETZNER_IMAGE", "ubuntu-24.04"),
                hetzner_api_token: required_env(env, "HETZNER_API_TOKEN")?,
                cluster_secret: required_env(env, "CLUSTER_SECRET")?,
                gitea_api_url: required_env(env, "GITEA_API_URL")?,
                gitea_admin_token: required_env(env, "GITEA_ADMIN_TOKEN")?,
                pushgateway_url: required_env(env, "PUSHGATEWAY_URL")?,
                runner_namespace: env_or(env, "RUNNER_NAMESPACE", "gitea-runners"),
                k3s_agent_args: env_or(env, "K3S_AGENT_ARGS", DEFAULT_AGENT_ARGS),
            },
        )
    }
}

/// An environment that sets what has to be set, and nothing that is read as a number, is
/// accepted, whatever else it holds.
pub proof fn required_variables_are_enough(env: Seq<EnvVarView>)
    requires
        value_of(env, "HETZNER_API_TOKEN"@) is Some,
        value_of(env, "CLUSTER_SECRET"@) is Some,
        value_of(env, "GITEA_API_URL"@) is Some,
        value_of(env, "GITEA_ADMIN_TOKEN"@) is Some,
        value_of(env, "PUSHGATEWAY_URL"@) is Some,
        value_of(env, "POLL_INTERVAL_SECS"@) is None,
        value_of(env, "MAX_NODES"@) is None,
        value_of(env, "IDLE_TIMEOUT_MINS"@) is None,
        value_of(env, "BILLING_WINDOW_MINS"@) is None,
        value_of(env, "PROVISIONING_TIMEOUT_SECS"@) is None,
    ensures
        config_error(env) is None,
        configured(env).poll_interval_secs == 5,
        configured(env).max_nodes == 5,
        configured(env).idle_timeout_mins == 5,
        configured(env).billing_window_mins == 5,
        configured(env).provisioning_timeout_secs == 600,
{
    reveal_with_fuel(first_of, 11);
}

/// The variable at `at` is the first one of the name.
pub open spec fn is_set_at(env: Seq<EnvVarView>, key: Seq<char>, at: int) -> bool {
    &&& 0 <= at < env.len()
    &&& env[at].name == key
    &&& forall|j: int| 0 <= j < at ==> (#[trigger] env[j]).name != key
}

/// A variable has the value that stands first under exactly its name, and none if nothing stands
/// under it.
pub proof fn variables_are_found_by_their_names(env: Seq<EnvVarView>, key: Seq<char>, at: int)
    ensures
        is_set_at(env, key, at) ==> value_of(env, key) == Some(env[at].value),
        (forall|j: int| 0 <= j < env.len() ==> (#[trigger] env[j]).name != key) ==> value_of(
            env,
            key,
        ) is None,
{
    if is_set_at(env, key, at) {
        lemma_find_first_at(env, var_named(key), at);
    }
    if forall|j: int| 0 <= j < env.len() ==> (#[trigger] env[j]).name != key {
        lemma_find_first_none(env, var_named(key));
    }
}

/// What a variable spells is the setting, and the default is the setting where it is not set.
pub open spec fn is_setting(setting: int, value: Option<Seq<char>>, default: int) -> bool {
    match value {
        Some(text) => unsigned_number(text) matches Some(n) ==> setting == n,
        None => setting == default,
    }
}

pub open spec fn is_text_setting(
    setting: Seq<char>,
    value: Option<Seq<char>>,
    default: Seq<char>,
) -> bool {
    match value {
        Some(text) => setting == text,
        None => setting == default,
    }
}

/// Each setting comes from the variable of its own and from no other.
pub proof fn each_setting_has_its_own_variable(env: Seq<EnvVarView>)
    ensures
        ({
            let c = configured(env);
            &&& is_setting(c.poll_interval_secs, value_of(env, "POLL_INTERVAL_SECS"@), 5)
            &&& is_setting(c.max_nodes, value_of(env, "MAX_NODES"@), 5)
            &&& is_setting(c.idle_timeout_mins, value_of(env, "IDLE_TIMEOUT_MINS"@), 5)
            &&& is_setting(c.billing_window_mins, value_of(env, "BILLING_WINDOW_MINS"@), 5)
            &&& is_setting(
                c.provisioning_timeout_secs,
                value_of(env, "PROVISIONING_TIMEOUT_SECS"@),
                600,
            )
            &&& is_text_setting(
                c.hetzner_server_type,
                value_of(env, "HETZNER_SERVER_TYPE"@),
                "ccx33"@,
            )
            &&& is_text_setting(c.hetzner_location, value_of(env, "HETZNER_LOCATION"@), "nbg1"@)
            &&& is_text_setting(c.hetzner_image, value_of(env, "HETZNER_IMAGE"@), "ubuntu-24.04"@)
            &&& is_text_setting(
                c.runner_namespace,
                value_of(env, "RUNNER_NAMESPACE"@),
                "gitea-runners"@,
            )
            &&& is_text_setting(
                c.k3s_agent_args,
                value_of(env, "K3S_AGENT_ARGS"@),
                "--node-label=managed-by=gitea-ci-autoscaler --node-label=node-role=ci-runner"@,
            )
            &&& value_of(env, "HETZNER_API_TOKEN"@) matches Some(v) ==> c.hetzner_api_token == v
            &&& value_of(env, "CLUSTER_SECRET"@) matches Some(v) ==> c.cluster_secret == v
            &&& value_of(env, "GITEA_API_URL"@) matches Some(v) ==> c.gitea_api_url == v
            &&& value_of(env, "GITEA_ADMIN_TOKEN"@) matches Some(v) ==> c.gitea_admin_token == v
            &&& value_of(env, "PUSHGATEWAY_URL"@) matches Some(v) ==> c.pushgateway_url == v
        }),
{
}

/// The variables that are read as numbers, in the order in which they are looked at.
pub open spec fn number_keys() -> Seq<Seq<char>> {
    seq![
        "POLL_INTERVAL_SECS"@,
        "MAX_NODES"@,
        "IDLE_TIMEOUT_MINS"@,
        "BILLING_WINDOW_MINS"@,
        "PROVISIONING_TIMEOUT_SECS"@,
    ]
}

/// The variables that have to be set, in the order in which they are looked at.
pub open spec fn required_keys() -> Seq<Seq<char>> {
    seq![
        "HETZNER_API_TOKEN"@,
        "CLUSTER_SECRET"@,
        "GITEA_API_URL"@,
        "GITEA_ADMIN_TOKEN"@,
        "PUSHGATEWAY_URL"@,
    ]
}

/// The variable is not set, or spells a number that the machine can hold: as a size where nodes
/// are counted, in 64 bits otherwise.
pub open spec fn is_number_or_unset(env: Seq<EnvVarView>, i: int) -> bool {
    match value_of(env, number_keys()[i]) {
        Some(text) => unsigned_number(text) matches Some(n) && (if i == 1 {
            n <= usize::MAX
        } else {
            n <= 0xffff_ffff_ffff_ffff
        }),
        None => true,
    }
}

/// An environment is accepted exactly if every variable that is read as a number spells one or is
/// not set, and every variable that has to be set is.
pub proof fn an_environment_is_accepted_if_nothing_is_wrong(env: Seq<EnvVarView>)
    ensures
        config_error(env) is None <==> (forall|i: int|
            0 <= i < 5 ==> #[trigger] is_number_or_unset(env, i)) && (forall|i: int|
            0 <= i < 5 ==> value_of(env, #[trigger] required_keys()[i]) is Some),
{
    reveal_with_fuel(first_of, 11);
    assert(is_number_or_unset(env, 0) && is_number_or_unset(env, 1) && is_number_or_unset(env, 2)
        && is_number_or_unset(env, 3) && is_number_or_unset(env, 4) <==> forall|i: int|
        0 <= i < 5 ==> #[trigger] is_number_or_unset(env, i));
    let keys = required_keys();
    assert(value_of(env, keys[0]) is Some && value_of(env, keys[1]) is Some && value_of(
        env,
        keys[2],
    ) is Some && value_of(env, keys[3]) is Some && value_of(env, keys[4]) is Some <==> forall|
        i: int,
    |
        0 <= i < 5 ==> value_of(env, #[trigger] keys[i]) is Some);
}

/// The first number that is wrong is told, with its text, whatever else is wrong.
pub proof fn wrong_numbers_are_told_first(env: Seq<EnvVarView>, i: int)
    requires
        0 <= i < 5,
        !is_number_or_unset(env, i),
        forall|j: int| 0 <= j < i ==> #[trigger] is_number_or_unset(env, j),
    ensures
        config_error(env) == Some(
            ConfigErrorView::InvalidValue(
                number_keys()[i],
                value_of(env, number_keys()[i])->0,
            ),
        ),
{
    reveal_with_fuel(first_of, 11);
    assert(i > 0 ==> is_number_or_unset(env, 0));
    assert(i > 1 ==> is_number_or_unset(env, 1));
    assert(i > 2 ==> is_number_or_unset(env, 2));
    assert(i > 3 ==> is_number_or_unset(env, 3));
}

/// Where the numbers are right, the first variable that has to be set and is not is told.
pub proof fn missing_variables_are_told_in_order(env: Seq<EnvVarView>, i: int)
    requires
        0 <= i < 5,
        forall|j: int| 0 <= j < 5 ==> #[trigger] is_number_or_unset(env, j),
        value_of(env, required_keys()[i]) is None,
        forall|j: int| 0 <= j < i ==> value_of(env, #[trigger] required_keys()[j]) is Some,
    ensures
        config_error(env) == Some(ConfigErrorView::MissingEnvVar(required_keys()[i])),
{
    reveal_with_fuel(first_of, 11);
    assert(is_number_or_unset(env, 0) && is_number_or_unset(env, 1) && is_number_or_unset(env, 2)
        && is_number_or_unset(env, 3) && is_number_or_unset(env, 4));
    assert(i > 0 ==> value_of(env, required_keys()[0]) is Some);
    assert(i > 1 ==> value_of(env, required_keys()[1]) is Some);
    assert(i > 2 ==> value_of(env, required_keys()[2]) is Some);
    assert(i > 3 ==> value_of(env, required_keys()[3]) is Some);
}

/// The contracts speak of the settings as they are held.
pub proof fn settings_are_seen_as_they_are_held(config: Config)
    ensures
        config@.poll_interval_secs == config.poll_interval_secs,
        config@.max_nodes == config.max_nodes,
        config@.idle_timeout_mins == config.idle_timeout_mins,
        config@.billing_window_mins == config.billing_window_mins,
        config@.provisioning_timeout_secs == config.provisioning_timeout_secs,
        config@.hetzner_server_type == config.hetzner_server_type@,
        config@.hetzner_location == config.hetzner_location@,
        config@.hetzner_image == config.hetzner_image@,
        config@.hetzner_api_token == config.hetzner_api_token@,
        config@.cluster_secret == config.cluster_secret@,
        config@.gitea_api_url == config.gitea_api_url@,
        config@.gitea_admin_token == config.gitea_admin_token@,
        config@.pushgateway_url == config.pushgateway_url@,
        config@.runner_namespace == config.runner_namespace@,
        config@.k3s_agent_args == config.k3s_agent_args@,
{
}

} // verus!
