use gitea_ci_autoscaler::config::{Config, ConfigError, EnvVar, Environment};

fn environment(vars: &[(&str, &str)]) -> Environment {
    Environment {
        vars: vars
            .iter()
            .map(|(name, value)| EnvVar {
                name: name.to_string(),
                value: value.to_string(),
            })
            .collect(),
    }
}

fn required_env() -> Vec<(&'static str, &'static str)> {
    vec![
        ("HETZNER_API_TOKEN", "hetzner-token"),
        ("CLUSTER_SECRET", "k3s-token"),
        ("GITEA_ADMIN_TOKEN", "gitea-token"),
        ("GITEA_API_URL", "http://gitea.example.com"),
        ("PUSHGATEWAY_URL", "http://pushgateway.example.com"),
    ]
}

fn with(extra: &[(&'static str, &'static str)]) -> Environment {
    let mut vars = required_env();
    vars.extend_from_slice(extra);
    environment(&vars)
}

#[test]
fn config_from_env_defaults() {
    let config = Config::from_env(&with(&[])).unwrap();
    assert_eq!(config.poll_interval_secs, 5);
    assert_eq!(config.max_nodes, 5);
    assert_eq!(config.idle_timeout_mins, 5);
    assert_eq!(config.billing_window_mins, 5);
    assert_eq!(config.provisioning_timeout_secs, 600);
    assert_eq!(config.hetzner_server_type, "ccx33");
    assert_eq!(config.hetzner_location, "nbg1");
    assert_eq!(config.hetzner_image, "ubuntu-24.04");
    assert_eq!(config.gitea_api_url, "http://gitea.example.com");
    assert_eq!(config.runner_namespace, "gitea-runners");
}

#[test]
fn config_from_env_custom_values() {
    let config = Config::from_env(&with(&[
        ("POLL_INTERVAL_SECS", "10"),
        ("MAX_NODES", "3"),
        ("IDLE_TIMEOUT_MINS", "10"),
        ("HETZNER_SERVER_TYPE", "cx22"),
    ]))
    .unwrap();
    assert_eq!(config.poll_interval_secs, 10);
    assert_eq!(config.max_nodes, 3);
    assert_eq!(config.idle_timeout_mins, 10);
    assert_eq!(config.hetzner_server_type, "cx22");
}

#[test]
fn config_missing_required_var() {
    let err = Config::from_env(&environment(&[])).unwrap_err();
    assert!(err.to_string().contains("HETZNER_API_TOKEN"));
}

#[test]
fn config_invalid_numeric_value() {
    let err = Config::from_env(&with(&[("MAX_NODES", "not_a_number")])).unwrap_err();
    assert!(err.to_string().contains("MAX_NODES"));
}

#[test]
fn secrets_and_addresses_are_taken_over() {
    let config = Config::from_env(&with(&[])).unwrap();
    assert_eq!(config.hetzner_api_token, "hetzner-token");
    assert_eq!(config.cluster_secret, "k3s-token");
    assert_eq!(config.gitea_admin_token, "gitea-token");
    assert_eq!(config.pushgateway_url, "http://pushgateway.example.com");
}

#[test]
fn agent_arguments_default_to_the_node_labels() {
    assert_eq!(
        Config::from_env(&with(&[])).unwrap().k3s_agent_args,
        "--node-label=managed-by=gitea-ci-autoscaler --node-label=node-role=ci-runner"
    );
    let config = Config::from_env(&with(&[(
        "K3S_AGENT_ARGS",
        "--node-taint=ci=true:NoSchedule",
    )]))
    .unwrap();
    assert_eq!(config.k3s_agent_args, "--node-taint=ci=true:NoSchedule");
}

#[test]
fn every_required_variable_is_required() {
    for missing in required_env() {
        let vars: Vec<_> = required_env()
            .into_iter()
            .filter(|var| var.0 != missing.0)
            .collect();
        match Config::from_env(&environment(&vars)) {
            Err(ConfigError::MissingEnvVar(name)) => assert_eq!(name, missing.0),
            other => panic!("{:?}", other),
        }
    }
}

#[test]
fn errors_in_words() {
    let missing = ConfigError::MissingEnvVar("A".to_string());
    assert_eq!(missing.to_string(), "missing required environment variable: A");
    let invalid = ConfigError::InvalidValue("A".to_string(), "b".to_string());
    assert_eq!(invalid.to_string(), "invalid value for A: b");
}

#[test]
fn numbers_are_read_as_rust_reads_them() {
    for text in [
        "", "+", "-1", "1 ", " 1", "1.5", "0x10", "1_000", "++1", "18446744073709551615",
        "18446744073709551616", "99999999999999999999", "+7", "007", "0",
    ] {
        let read = Config::from_env(&with(&[("POLL_INTERVAL_SECS", text)]));
        match text.parse::<u64>() {
            Ok(n) => assert_eq!(read.unwrap().poll_interval_secs, n, "{}", text),
            Err(_) => match read {
                Err(ConfigError::InvalidValue(name, value)) => {
                    assert_eq!(name, "POLL_INTERVAL_SECS");
                    assert_eq!(value, text);
                }
                other => panic!("{}: {:?}", text, other),
            },
        }
    }
}

#[test]
fn numbers_are_looked_at_before_required_variables() {
    let err = Config::from_env(&environment(&[("BILLING_WINDOW_MINS", "x")])).unwrap_err();
    assert_eq!(err.to_string(), "invalid value for BILLING_WINDOW_MINS: x");
}
