use chrono::{DateTime, Duration, Utc};
use gitea_ci_autoscaler::config::{Config, EnvVar, Environment};
use gitea_ci_autoscaler::control_loop::{Autoscaler, Reply, Request};
use gitea_ci_autoscaler::gitea::{Runner, RunnerLabel};
use gitea_ci_autoscaler::hetzner::HetznerServer;
use gitea_ci_autoscaler::metrics::Metrics;
use gitea_ci_autoscaler::node_manager::{
    is_in_billing_window, permanent_runner_capacity, server_name, ManagedNode, NodeManager,
    NodeState, TeardownCall, TeardownProgress,
};
use gitea_ci_autoscaler::time::{self, Timestamp};

fn at(t: DateTime<Utc>) -> Timestamp {
    Timestamp {
        secs: t.timestamp(),
        nanos: t.timestamp_subsec_nanos(),
    }
}

fn manager() -> NodeManager {
    NodeManager::new("v1.32.0+k3s1".into(), "10.0.0.1".into())
}

fn make_runner(id: u64, name: &str, online: bool, busy: bool) -> Runner {
    Runner {
        id,
        name: name.to_string(),
        status: if online { "online" } else { "offline" }.to_string(),
        busy,
        labels: vec![RunnerLabel {
            name: "linux".to_string(),
        }],
    }
}

fn make_node(id: i64, created: DateTime<Utc>, state: NodeState) -> ManagedNode {
    ManagedNode {
        hetzner_server_id: id,
        hetzner_server_name: format!("ci-runner-{id}"),
        created_at: at(created),
        state,
    }
}

fn idle(idle_since: DateTime<Utc>) -> NodeState {
    NodeState::Idle {
        k8s_node_name: "ci-runner-1".into(),
        gitea_runner_id: 100,
        gitea_runner_name: "runner-1".into(),
        idle_since: at(idle_since),
    }
}

fn busy() -> NodeState {
    NodeState::Busy {
        k8s_node_name: "ci-runner-1".into(),
        gitea_runner_id: 100,
        gitea_runner_name: "runner-1".into(),
    }
}

// --- Billing window ---

#[test]
fn billing_hour_window_inside() {
    let created = Utc::now() - Duration::minutes(56);
    assert!(is_in_billing_window(at(created), at(Utc::now()), 5));
}

#[test]
fn billing_hour_window_outside() {
    let created = Utc::now() - Duration::minutes(30);
    assert!(!is_in_billing_window(at(created), at(Utc::now()), 5));
}

#[test]
fn billing_hour_window_boundary() {
    let created = Utc::now() - Duration::minutes(55);
    assert!(is_in_billing_window(at(created), at(Utc::now()), 5));
}

#[test]
fn billing_hour_window_second_hour() {
    let created = Utc::now() - Duration::minutes(116); // 56 mins into second hour
    assert!(is_in_billing_window(at(created), at(Utc::now()), 5));
}

#[test]
fn billing_window_to_the_second() {
    let created = Timestamp {
        secs: 1_700_000_000,
        nanos: 0,
    };
    let after = |secs: i64| Timestamp {
        secs: created.secs + secs,
        nanos: 0,
    };
    assert!(!is_in_billing_window(created, after(55 * 60 - 1), 5));
    assert!(is_in_billing_window(created, after(55 * 60), 5));
    assert!(is_in_billing_window(created, after(60 * 60 - 1), 5));
    assert!(!is_in_billing_window(created, after(60 * 60), 5));
    assert!(is_in_billing_window(created, after(115 * 60), 5));
}

#[test]
fn billing_window_of_any_size() {
    let created = Timestamp {
        secs: 1_700_000_000,
        nanos: 0,
    };
    for secs in [0i64, 59, 1800, 3599, 3600, 86_400] {
        let now = Timestamp {
            secs: created.secs + secs,
            nanos: 0,
        };
        assert!(!is_in_billing_window(created, now, 0));
        assert!(is_in_billing_window(created, now, 60));
        assert!(is_in_billing_window(created, now, u64::MAX));
    }
    let before = Timestamp {
        secs: created.secs - 60,
        nanos: 0,
    };
    assert!(!is_in_billing_window(created, before, 60));
    assert!(is_in_billing_window(created, before, 61));
}

// --- Idle timeout ---

#[test]
fn idle_timeout_check_expired() {
    let idle_since = at(Utc::now() - Duration::minutes(6));
    let idle_duration = at(Utc::now()).since(idle_since);
    let limit = time::Duration::from_secs(5 * 60).to_span().unwrap();
    assert!(idle_duration.at_least(limit));
}

#[test]
fn idle_timeout_check_not_expired() {
    let idle_since = at(Utc::now() - Duration::minutes(3));
    let idle_duration = at(Utc::now()).since(idle_since);
    let limit = time::Duration::from_secs(5 * 60).to_span().unwrap();
    assert!(!idle_duration.at_least(limit));
}

// --- Scale-up ---

#[test]
fn scale_up_one_node() {
    let mgr = manager();
    assert_eq!(mgr.compute_scale_up(1, 0, 5), 1);
}

#[test]
fn scale_up_multiple() {
    let mgr = manager();
    assert_eq!(mgr.compute_scale_up(3, 0, 5), 3);
}

#[test]
fn scale_up_capped_at_max() {
    let mgr = manager();
    assert_eq!(mgr.compute_scale_up(10, 0, 5), 5);
}

#[test]
fn no_scale_up_when_provisioning() {
    let mut mgr = manager();
    mgr.nodes.push(ManagedNode {
        hetzner_server_id: 1,
        hetzner_server_name: "ci-runner-1".into(),
        created_at: at(Utc::now()),
        state: NodeState::Provisioning,
    });
    assert_eq!(mgr.compute_scale_up(1, 0, 5), 0);
}

#[test]
fn no_scale_up_at_max() {
    let mut mgr = manager();
    for i in 0..5i64 {
        mgr.nodes.push(ManagedNode {
            hetzner_server_id: i,
            hetzner_server_name: format!("ci-runner-{i}"),
            created_at: at(Utc::now()),
            state: NodeState::Idle {
                k8s_node_name: format!("node-{i}"),
                gitea_runner_id: (i + 100) as u64,
                gitea_runner_name: format!("runner-{i}"),
                idle_since: at(Utc::now()),
            },
        });
    }
    assert_eq!(mgr.compute_scale_up(2, 0, 5), 0);
}

#[test]
fn ignore_macos_jobs() {
    // macos jobs are pre-filtered — only linux count is passed in
    let mgr = manager();
    assert_eq!(mgr.compute_scale_up(1, 0, 5), 1); // 1 linux
}

#[test]
fn no_scale_on_zero_demand() {
    let mgr = manager();
    assert_eq!(mgr.compute_scale_up(0, 0, 5), 0);
}

#[test]
fn account_for_permanent_runners() {
    let mgr = manager();
    assert_eq!(mgr.compute_scale_up(2, 2, 5), 0);
}

#[test]
fn scale_up_beyond_permanent() {
    let mgr = manager();
    assert_eq!(mgr.compute_scale_up(4, 2, 5), 2);
}

#[test]
fn scale_up_is_done_once() {
    let mut mgr = manager();
    let mut metrics = Metrics::new();
    let count = mgr.compute_scale_up(7, 2, 4);
    assert_eq!(count, 4);
    for id in 0..4i64 {
        let server = HetznerServer {
            id,
            name: format!("ci-runner-{id}"),
            created: at(Utc::now()),
            labels: std::collections::HashMap::new(),
        };
        mgr.scale_up(Some(server), &mut metrics);
    }
    assert_eq!(mgr.nodes.len(), 4);
    assert_eq!(metrics.nodes_created_total, 4);
    assert_eq!(mgr.compute_scale_up(7, 2, 4), 0);
}

#[test]
fn busy_and_leaving_nodes_take_room_but_no_jobs() {
    let now = Utc::now();
    let mut mgr = manager();
    mgr.nodes.push(make_node(1, now, busy()));
    mgr.nodes.push(make_node(2, now, NodeState::Removing));
    assert_eq!(mgr.compute_scale_up(5, 0, 5), 3);
    mgr.nodes.push(make_node(3, now, idle(now)));
    assert_eq!(mgr.compute_scale_up(5, 0, 5), 2);
    assert_eq!(mgr.compute_scale_up(usize::MAX, usize::MAX, usize::MAX), 0);
}

#[test]
fn failed_creation_is_counted() {
    let mut mgr = manager();
    let mut metrics = Metrics::new();
    mgr.scale_up(None, &mut metrics);
    assert!(mgr.nodes.is_empty());
    assert_eq!(metrics.scale_up_errors_total, 1);
    assert_eq!(metrics.nodes_created_total, 0);
}

// --- Scale-down ---

#[test]
fn find_teardown_idle_node() {
    let now = Utc::now();
    let created = now - Duration::minutes(56); // in billing window
    let idle_since = now - Duration::minutes(6); // past idle timeout

    let mut mgr = manager();
    mgr.nodes.push(make_node(1, created, idle(idle_since)));

    let candidates = mgr.find_teardown_candidates(at(now), time::Duration::from_secs(300), 5);
    assert_eq!(candidates, vec![0]);
}

#[test]
fn no_scale_down_when_busy() {
    let now = Utc::now();
    let mut mgr = manager();
    mgr.nodes
        .push(make_node(1, now - Duration::minutes(56), busy()));

    let candidates = mgr.find_teardown_candidates(at(now), time::Duration::from_secs(300), 5);
    assert!(candidates.is_empty());
}

#[test]
fn no_scale_down_before_timeout() {
    let now = Utc::now();
    let created = now - Duration::minutes(56);
    let idle_since = now - Duration::minutes(3); // not yet past 5 min idle

    let mut mgr = manager();
    mgr.nodes.push(make_node(1, created, idle(idle_since)));

    let candidates = mgr.find_teardown_candidates(at(now), time::Duration::from_secs(300), 5);
    assert!(candidates.is_empty());
}

#[test]
fn no_scale_down_outside_billing_window() {
    let now = Utc::now();
    let created = now - Duration::minutes(30); // NOT near billing hour end
    let idle_since = now - Duration::minutes(6);

    let mut mgr = manager();
    mgr.nodes.push(make_node(1, created, idle(idle_since)));

    let candidates = mgr.find_teardown_candidates(at(now), time::Duration::from_secs(300), 5);
    assert!(candidates.is_empty());
}

#[test]
fn candidates_are_ascending() {
    let now = Utc::now();
    let created = now - Duration::minutes(56);
    let mut mgr = manager();
    mgr.nodes.push(make_node(1, created, idle(now - Duration::minutes(5))));
    mgr.nodes.push(make_node(2, created, busy()));
    mgr.nodes.push(make_node(3, created, idle(now - Duration::minutes(4))));
    mgr.nodes.push(make_node(4, created, idle(now - Duration::minutes(7))));
    mgr.nodes.push(make_node(5, created, NodeState::Removing));

    let candidates = mgr.find_teardown_candidates(at(now), time::Duration::from_secs(300), 5);
    assert_eq!(candidates, vec![0, 3]);
    assert_eq!(mgr.nodes_in_teardown(), vec![4]);
}

// --- Teardown ---

/// Runs one step of the teardown with the given outcomes, and returns the calls that it made.
fn step(
    mgr: &mut NodeManager,
    index: usize,
    metrics: &mut Metrics,
    outcomes: &[bool],
) -> (Vec<TeardownCall>, bool) {
    let mut calls = vec![];
    for outcome in outcomes {
        match mgr.teardown_call(index) {
            Some(call) => calls.push(call),
            None => return (calls, false),
        }
        match mgr.teardown_step(index, *outcome, metrics) {
            TeardownProgress::Finished { removed } => return (calls, removed),
            TeardownProgress::ServerLeft => {}
        }
    }
    panic!("the step needs another outcome");
}

#[test]
fn teardown_order() {
    let mut metrics = Metrics::new();
    let now = Utc::now();
    let mut mgr = manager();
    mgr.nodes.push(make_node(
        1,
        now - Duration::minutes(56),
        idle(now - Duration::minutes(6)),
    ));

    // Step 1: Idle -> Deregistering
    let (calls, removed) = step(&mut mgr, 0, &mut metrics, &[true]);
    assert!(!removed);
    assert!(matches!(
        mgr.nodes[0].state,
        NodeState::Deregistering { .. }
    ));

    // The runner is deleted from Gitea
    assert_eq!(calls.len(), 1);
    match calls[0] {
        TeardownCall::DeleteRunner { runner_id } => assert_eq!(runner_id, 100),
        _ => panic!("expected the runner to be deleted"),
    }

    // Step 2: Deregistering -> Draining
    let (calls, removed) = step(&mut mgr, 0, &mut metrics, &[true]);
    assert!(!removed);
    assert!(matches!(mgr.nodes[0].state, NodeState::Draining { .. }));
    assert!(matches!(&calls[0], TeardownCall::DrainNode { node_name } if node_name == "ci-runner-1"));

    // Step 3: Draining -> Removing -> Deleted
    let (calls, removed) = step(&mut mgr, 0, &mut metrics, &[true, true]);
    assert!(removed);
    assert!(mgr.nodes.is_empty());
    assert!(
        matches!(&calls[0], TeardownCall::DeleteNode { node_name } if node_name == "ci-runner-1")
    );
    assert!(matches!(
        calls[1],
        TeardownCall::DeleteServer { server_id: 1 }
    ));
    assert_eq!(metrics.runners_deregistered_total, 1);
    assert_eq!(metrics.nodes_deleted_total, 1);
    assert_eq!(metrics.scale_down_errors_total, 0);
}

#[test]
fn failed_teardown_calls_are_repeated() {
    let mut metrics = Metrics::new();
    let now = Utc::now();
    let mut mgr = manager();
    mgr.nodes.push(make_node(1, now, idle(now)));

    let (_, removed) = step(&mut mgr, 0, &mut metrics, &[false]);
    assert!(!removed);
    assert!(matches!(mgr.nodes[0].state, NodeState::Idle { .. }));
    assert_eq!(metrics.scale_down_errors_total, 1);
    step(&mut mgr, 0, &mut metrics, &[true]);
    step(&mut mgr, 0, &mut metrics, &[false]);
    assert!(matches!(
        mgr.nodes[0].state,
        NodeState::Deregistering { .. }
    ));
    step(&mut mgr, 0, &mut metrics, &[true]);
    step(&mut mgr, 0, &mut metrics, &[false]);
    assert!(matches!(mgr.nodes[0].state, NodeState::Draining { .. }));
    assert_eq!(metrics.scale_down_errors_total, 3);
    let (_, removed) = step(&mut mgr, 0, &mut metrics, &[true, false]);
    assert!(!removed);
    assert_eq!(mgr.nodes[0].state, NodeState::Removing);
    let (_, removed) = step(&mut mgr, 0, &mut metrics, &[false]);
    assert!(!removed);
    // A server that could not be deleted is a failed teardown operation too.
    assert_eq!(metrics.scale_down_errors_total, 5);
    let (_, removed) = step(&mut mgr, 0, &mut metrics, &[true]);
    assert!(removed);
    assert_eq!(metrics.nodes_deleted_total, 1);
}

#[test]
fn nodes_in_use_are_not_torn_down() {
    let now = Utc::now();
    let mut mgr = manager();
    let mut metrics = Metrics::new();
    mgr.nodes.push(make_node(1, now, busy()));
    mgr.nodes.push(make_node(2, now, NodeState::Provisioning));
    for index in 0..2usize {
        assert!(mgr.teardown_call(index).is_none());
        assert_eq!(
            mgr.teardown_step(index, true, &mut metrics),
            TeardownProgress::Finished { removed: false }
        );
    }
    assert_eq!(mgr.nodes.len(), 2);
    assert_eq!(mgr.nodes[0].state, busy());
}

// --- Permanent runners ---

#[test]
fn permanent_runner_capacity_test() {
    let runners = vec![
        make_runner(1, "permanent-1", true, false),
        make_runner(2, "permanent-2", true, true),
        make_runner(3, "managed-runner", true, false),
    ];
    let managed_names = vec!["managed-runner".to_string()];
    assert_eq!(permanent_runner_capacity(&runners, &managed_names), 1);
}

#[test]
fn permanent_runner_capacity_excludes_non_linux() {
    let macos_runner = Runner {
        id: 10,
        name: "macos-runner".to_string(),
        status: "online".to_string(),
        busy: false,
        labels: vec![
            RunnerLabel {
                name: "macos".to_string(),
            },
            RunnerLabel {
                name: "self-hosted".to_string(),
            },
        ],
    };
    let runners = vec![make_runner(1, "linux-1", true, false), macos_runner];
    let managed_names = vec![];
    assert_eq!(permanent_runner_capacity(&runners, &managed_names), 1);
}

#[test]
fn offline_runners_have_no_capacity() {
    let runners = vec![make_runner(1, "permanent-1", false, false)];
    assert_eq!(permanent_runner_capacity(&runners, &[]), 0);
}

#[test]
fn managed_runners_are_those_of_busy_and_idle_nodes() {
    let now = Utc::now();
    let mut mgr = manager();
    mgr.nodes.push(make_node(1, now, NodeState::Provisioning));
    mgr.nodes.push(make_node(2, now, busy()));
    mgr.nodes.push(make_node(3, now, idle(now)));
    mgr.nodes.push(make_node(4, now, NodeState::Removing));
    assert_eq!(
        mgr.managed_runner_names(),
        vec!["runner-1".to_string(), "runner-1".to_string()]
    );
}

// --- Stuck servers ---

#[test]
fn delete_stuck_server_not_in_nodes() {
    let env = ["HETZNER_API_TOKEN", "CLUSTER_SECRET", "GITEA_API_URL", "GITEA_ADMIN_TOKEN"];
    let vars = env.iter().chain(["PUSHGATEWAY_URL"].iter()).map(|name| EnvVar {
        name: name.to_string(),
        value: "test".to_string(),
    });
    let config = Config::from_env(&Environment {
        vars: vars.collect(),
    })
    .unwrap();
    let mut autoscaler = Autoscaler::new(config, manager(), Metrics::new());
    let mut delete_calls: Vec<i64> = vec![];

    // Server 99 is NOT tracked in manager.nodes
    assert!(autoscaler.manager.nodes.is_empty());
    let stuck = HetznerServer {
        id: 99,
        name: "ci-runner-99".to_string(),
        created: at(Utc::now() - Duration::minutes(15)),
        labels: std::collections::HashMap::new(),
    };

    autoscaler.begin();
    while let Some(request) = autoscaler.request() {
        assert!(autoscaler.manager.nodes.is_empty());
        let reply = match request {
            Request::ListJobs { .. } => Reply::Jobs(vec![]),
            Request::ListRunners => Reply::Runners(vec![]),
            Request::ListServers { .. } => Reply::Servers(vec![stuck.clone()]),
            Request::ListNodes { .. } => Reply::Nodes(vec![]),
            Request::ListPods { .. } => Reply::Pods(vec![]),
            Request::DeleteStuckServer { server_id } => {
                delete_calls.push(server_id);
                Reply::Done
            }
            other => panic!("{:?}", other),
        };
        autoscaler.advance(reply);
    }

    // Should still call hetzner.delete_server
    assert_eq!(delete_calls.len(), 1);
    assert_eq!(delete_calls[0], 99);
    assert_eq!(autoscaler.metrics.nodes_deleted_total, 1);
    assert_eq!(autoscaler.metrics.scale_up_errors_total, 1);
}

#[test]
fn a_server_without_a_node_is_counted_when_deleted() {
    let mut metrics = Metrics::new();
    let mut mgr = manager();
    mgr.delete_stuck_server(99, true, &mut metrics);
    assert!(mgr.nodes.is_empty());
    assert_eq!(metrics.nodes_deleted_total, 1);
    assert_eq!(metrics.scale_up_errors_total, 1);
}

#[test]
fn a_stuck_server_takes_its_node_with_it() {
    let now = Utc::now();
    let mut metrics = Metrics::new();
    let mut mgr = manager();
    mgr.nodes.push(make_node(1, now, busy()));
    mgr.nodes.push(make_node(2, now, NodeState::Provisioning));

    mgr.delete_stuck_server(2, false, &mut metrics);
    assert_eq!(mgr.nodes.len(), 2);
    assert_eq!(metrics.nodes_deleted_total, 0);
    assert_eq!(metrics.scale_up_errors_total, 0);

    mgr.delete_stuck_server(2, true, &mut metrics);
    assert_eq!(mgr.nodes.len(), 1);
    assert_eq!(mgr.nodes[0].hetzner_server_id, 1);
}

// --- Metrics ---

#[test]
fn metrics_describe_the_nodes() {
    let now = Utc::now();
    let mut metrics = Metrics::new();
    let mut mgr = manager();
    mgr.nodes.push(make_node(
        1,
        now - Duration::seconds(90),
        idle(now - Duration::seconds(30)),
    ));
    mgr.nodes
        .push(make_node(2, now + Duration::seconds(5), NodeState::Provisioning));
    mgr.nodes.push(make_node(3, now, NodeState::Provisioning));
    mgr.update_metrics(&mut metrics, at(now));

    assert_eq!(metrics.node_age_seconds.get("ci-runner-1"), Some(90));
    assert_eq!(metrics.node_idle_seconds.get("ci-runner-1"), Some(30));
    // A clock that lags behind does not make a node younger than new.
    assert_eq!(metrics.node_age_seconds.get("ci-runner-2"), Some(0));
    assert_eq!(metrics.node_idle_seconds.get("ci-runner-2"), None);
    assert_eq!(metrics.managed_nodes.get("provisioning"), Some(2));
    assert_eq!(metrics.managed_nodes.get("idle"), Some(1));
    let total: u64 = metrics.managed_nodes.values().iter().map(|g| g.value).sum();
    assert_eq!(total, 3);
    assert_eq!(metrics.managed_nodes.values().len(), 6);

    // Nodes that are gone are not reported any more.
    mgr.nodes.clear();
    mgr.update_metrics(&mut metrics, at(now));
    assert!(metrics.node_age_seconds.values().is_empty());
    assert!(metrics.node_idle_seconds.values().is_empty());
    assert_eq!(metrics.managed_nodes.get("provisioning"), Some(0));
}

#[test]
fn names_of_states() {
    let now = Utc::now();
    assert_eq!(NodeState::Provisioning.state_name(), "provisioning");
    assert_eq!(busy().state_name(), "busy");
    assert_eq!(idle(now).state_name(), "idle");
    assert_eq!(
        NodeState::Deregistering {
            k8s_node_name: "n".into(),
            gitea_runner_id: 1
        }
        .state_name(),
        "deregistering"
    );
    assert_eq!(
        NodeState::Draining {
            k8s_node_name: "n".into()
        }
        .state_name(),
        "draining"
    );
    assert_eq!(NodeState::Removing.state_name(), "removing");
}

#[test]
fn server_names_are_short() {
    assert_eq!(
        server_name("67e55044-10b1-426f-9247-bb680e5fe0c8"),
        "ci-runner-67e55044"
    );
}

#[test]
fn the_billing_window_is_hourly_from_a_leap_second_on() {
    let created = Timestamp {
        secs: 1_483_228_799,
        nanos: 1_000_000_000,
    };
    let after = |secs: i64| Timestamp {
        secs: created.secs + secs,
        nanos: 0,
    };
    for secs in [60i64, 600, 3000, 3300, 3599, 3600, 7200] {
        let (now, later) = (after(secs), after(secs + 3600));
        let hour = later.minutes_since(created) - now.minutes_since(created);
        if hour == 60 {
            for window in 0..61u64 {
                assert_eq!(
                    is_in_billing_window(created, now, window),
                    is_in_billing_window(created, later, window)
                );
            }
        }
    }
}

#[test]
fn the_last_of_two_nodes_of_one_name_counts() {
    let now = Utc::now();
    let mut metrics = Metrics::new();
    let mut mgr = manager();
    mgr.nodes.push(make_node(1, now - Duration::seconds(10), busy()));
    mgr.nodes.push(make_node(1, now - Duration::seconds(20), busy()));
    mgr.nodes.push(make_node(2, now - Duration::seconds(30), busy()));
    mgr.update_metrics(&mut metrics, at(now));
    assert_eq!(metrics.node_age_seconds.get("ci-runner-1"), Some(20));
    assert_eq!(metrics.node_age_seconds.get("ci-runner-2"), Some(30));
}
