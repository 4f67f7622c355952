use std::collections::HashMap;

use gitea_ci_autoscaler::hetzner::{
    collect_servers, managed_selector, server_created_at, server_from_api, servers_from_api,
    ApiServer, HetznerError, ServerTemplate,
};
use gitea_ci_autoscaler::time::{Timestamp, TimestampError};

fn report(id: i64, created: &str) -> ApiServer {
    let mut labels = HashMap::new();
    labels.insert("managed-by".to_string(), "gitea-ci-autoscaler".to_string());
    ApiServer {
        id,
        name: format!("ci-runner-{id}"),
        created: created.to_string(),
        labels,
    }
}

fn parse_error(text: &str) -> chrono::ParseError {
    text.parse::<chrono::DateTime<chrono::Utc>>().unwrap_err()
}

#[test]
fn a_report_is_read() {
    let server = server_from_api(report(7, "2016-01-30T23:50:00+00:00")).unwrap();
    assert_eq!(server.id, 7);
    assert_eq!(server.name, "ci-runner-7");
    assert_eq!(
        server.created,
        Timestamp {
            secs: 1_454_197_800,
            nanos: 0
        }
    );
    assert_eq!(server.labels["managed-by"], "gitea-ci-autoscaler");
}

#[test]
fn offsets_and_fractions_are_read() {
    let server = server_from_api(report(7, "2016-01-31T00:50:00.25+01:00")).unwrap();
    assert_eq!(
        server.created,
        Timestamp {
            secs: 1_454_197_800,
            nanos: 250_000_000
        }
    );
}

#[test]
fn a_report_without_a_timestamp_is_an_error() {
    match server_from_api(report(7, "yesterday")) {
        Err(HetznerError::InvalidTimestamp { text, error }) => {
            assert_eq!(text, "yesterday");
            assert_eq!(error, TimestampError::Invalid);
        }
        other => panic!("{:?}", other),
    }
    let err = server_created_at(report(7, "yesterday"), Err(TimestampError::TooLong)).unwrap_err();
    assert_eq!(err.to_string(), "trailing input");
    let HetznerError::InvalidTimestamp { text, error } = err;
    assert_eq!(text, "yesterday");
    assert_eq!(error, TimestampError::TooLong);
}

#[test]
fn errors_are_those_that_chrono_finds() {
    for (text, expected) in [
        ("yesterday", TimestampError::Invalid),
        ("2016-01-30", TimestampError::TooShort),
        ("", TimestampError::TooShort),
        ("2016-01-30T23:50:00Z and on", TimestampError::TooLong),
        ("2016-13-30T23:50:00Z", TimestampError::OutOfRange),
        ("2016-02-30T23:50:00Z", TimestampError::OutOfRange),
        ("999999-01-30T23:50:00Z", TimestampError::Invalid),
        ("+999999-01-30T23:50:00Z", TimestampError::OutOfRange),
    ] {
        let err = server_from_api(report(7, text)).unwrap_err();
        assert_eq!(err.to_string(), parse_error(text).to_string(), "{}", text);
        let HetznerError::InvalidTimestamp { error, .. } = err;
        assert_eq!(error, expected, "{}", text);
    }
}

#[test]
fn errors_of_timestamps_in_words() {
    for (error, words) in [
        (TimestampError::OutOfRange, "input is out of range"),
        (
            TimestampError::Impossible,
            "no possible date and time matching input",
        ),
        (
            TimestampError::NotEnough,
            "input is not enough for unique date and time",
        ),
        (TimestampError::Invalid, "input contains invalid characters"),
        (TimestampError::TooShort, "premature end of input"),
        (TimestampError::TooLong, "trailing input"),
        (
            TimestampError::BadFormat,
            "bad or unsupported format string",
        ),
    ] {
        assert_eq!(error.to_string(), words);
    }
}

#[test]
fn a_list_is_read_in_order() {
    let servers = servers_from_api(vec![
        report(2, "2016-01-30T23:50:00Z"),
        report(1, "2016-01-30T23:50:01Z"),
    ])
    .unwrap();
    let ids: Vec<i64> = servers.iter().map(|s| s.id).collect();
    assert_eq!(ids, vec![2, 1]);
    assert!(servers_from_api(vec![]).unwrap().is_empty());
}

#[test]
fn the_first_report_that_cannot_be_read_is_the_error() {
    let err = servers_from_api(vec![
        report(2, "2016-01-30T23:50:00Z"),
        report(1, "once"),
        report(3, "never"),
    ])
    .unwrap_err();
    let HetznerError::InvalidTimestamp { text, .. } = err;
    assert_eq!(text, "once");
    let when = Timestamp { secs: 5, nanos: 6 };
    let read = server_created_at(report(1, "any"), Ok(when));
    let servers = collect_servers(vec![read]).unwrap();
    assert_eq!(servers[0].created, when);
}

#[test]
fn orders_carry_the_label_that_is_listed() {
    let template = ServerTemplate {
        server_type: "ccx33".into(),
        location: "nbg1".into(),
        image: "ubuntu-24.04".into(),
        ssh_keys: vec!["one".into(), "two".into()],
    };
    let order = template.order("ci-runner-1", "#cloud-config");
    assert_eq!(order.name, "ci-runner-1");
    assert_eq!(order.server_type, "ccx33");
    assert_eq!(order.image, "ubuntu-24.04");
    assert_eq!(order.location, "nbg1");
    assert_eq!(order.user_data, "#cloud-config");
    assert_eq!(order.ssh_keys, vec!["one".to_string(), "two".to_string()]);
    assert!(!order.automount);
    assert!(order.start_after_create);
    assert_eq!(order.labels.len(), 1);
    let (label, value) = &order.labels[0];
    assert_eq!(managed_selector(), format!("{label}={value}"));
    assert_eq!(managed_selector(), "managed-by=gitea-ci-autoscaler");
}
