use chrono::{DateTime, Duration, Utc};
use gitea_ci_autoscaler::gitea::{Job, Runner, RunnerLabel};
use gitea_ci_autoscaler::hetzner::HetznerServer;
use gitea_ci_autoscaler::k8s::{K8sNode, K8sPod};
use gitea_ci_autoscaler::node_manager::{ManagedNode, NodeState};
use gitea_ci_autoscaler::reconcile::{carry_forward_state, reconcile, ReconcileAction};
use gitea_ci_autoscaler::time::{self, Timestamp};

fn at(t: DateTime<Utc>) -> Timestamp {
    Timestamp {
        secs: t.timestamp(),
        nanos: t.timestamp_subsec_nanos(),
    }
}

fn make_server(id: i64, name: &str, age_mins: i64) -> HetznerServer {
    HetznerServer {
        id,
        name: name.to_string(),
        created: at(Utc::now() - Duration::minutes(age_mins)),
        labels: {
            let mut m = std::collections::HashMap::new();
            m.insert("managed-by".to_string(), "gitea-ci-autoscaler".to_string());
            m
        },
    }
}

fn make_runner(id: u64, name: &str, online: bool, busy: bool) -> Runner {
    Runner {
        id,
        name: name.to_string(),
        status: if online { "online" } else { "offline" }.to_string(),
        busy,
        labels: vec![RunnerLabel {
            name: "linux".to_string(),
        }],
    }
}

fn make_job(id: u64, runner_id: u64, runner_name: &str) -> Job {
    Job {
        id,
        name: format!("job-{id}"),
        labels: vec!["self-hosted".into(), "linux".into()],
        status: "in_progress".into(),
        runner_id: Some(runner_id),
        runner_name: Some(runner_name.to_string()),
    }
}

fn make_node(id: i64, created: DateTime<Utc>, state: NodeState) -> ManagedNode {
    ManagedNode {
        hetzner_server_id: id,
        hetzner_server_name: format!("ci-runner-{id}"),
        created_at: at(created),
        state,
    }
}

fn idle(idle_since: DateTime<Utc>) -> NodeState {
    NodeState::Idle {
        k8s_node_name: "ci-runner-1".into(),
        gitea_runner_id: 100,
        gitea_runner_name: "runner-1".into(),
        idle_since: at(idle_since),
    }
}

#[test]
fn reconcile_clean_state() {
    let servers = vec![
        make_server(1, "ci-runner-1", 10),
        make_server(2, "ci-runner-2", 5),
    ];
    let k8s_nodes = vec![
        K8sNode {
            name: "ci-runner-1".into(),
            unschedulable: false,
        },
        K8sNode {
            name: "ci-runner-2".into(),
            unschedulable: false,
        },
    ];
    let pods = vec![
        K8sPod {
            name: "runner-1".into(),
            namespace: "gitea-runners".into(),
            node_name: Some("ci-runner-1".into()),
        },
        K8sPod {
            name: "runner-2".into(),
            namespace: "gitea-runners".into(),
            node_name: Some("ci-runner-2".into()),
        },
    ];
    let runners = vec![
        make_runner(100, "runner-1", true, true),
        make_runner(101, "runner-2", true, false),
    ];
    let jobs = vec![make_job(1, 100, "runner-1")];

    let (nodes, actions) = reconcile(
        &servers,
        &k8s_nodes,
        &pods,
        &runners,
        &jobs,
        at(Utc::now()),
        time::Duration::from_secs(600),
    );

    assert_eq!(nodes.len(), 2);
    assert!(actions.is_empty());
    assert!(matches!(nodes[0].state, NodeState::Busy { .. }));
    assert!(matches!(nodes[1].state, NodeState::Idle { .. }));
}

#[test]
fn reconcile_provisioning_server() {
    let servers = vec![make_server(1, "ci-runner-1", 2)]; // 2 min old
    let (nodes, actions) = reconcile(
        &servers,
        &[],
        &[],
        &[],
        &[],
        at(Utc::now()),
        time::Duration::from_secs(600),
    );

    assert_eq!(nodes.len(), 1);
    assert!(actions.is_empty());
    assert!(matches!(nodes[0].state, NodeState::Provisioning));
}

#[test]
fn reconcile_stuck_server() {
    let servers = vec![make_server(1, "ci-runner-1", 15)]; // 15 min old
    let (nodes, actions) = reconcile(
        &servers,
        &[],
        &[],
        &[],
        &[],
        at(Utc::now()),
        time::Duration::from_secs(600),
    );

    assert!(nodes.is_empty());
    assert_eq!(actions.len(), 1);
    assert_eq!(
        actions[0],
        ReconcileAction::DeleteStuckServer { server_id: 1 }
    );
}

#[test]
fn reconcile_mid_teardown() {
    let servers = vec![make_server(1, "ci-runner-1", 30)];
    let k8s_nodes = vec![K8sNode {
        name: "ci-runner-1".into(),
        unschedulable: true,
    }];
    // No runner pod
    let (nodes, actions) = reconcile(
        &servers,
        &k8s_nodes,
        &[],
        &[],
        &[],
        at(Utc::now()),
        time::Duration::from_secs(600),
    );

    assert_eq!(nodes.len(), 1);
    assert!(actions.is_empty());
    assert!(matches!(nodes[0].state, NodeState::Draining { .. }));
}

#[test]
fn reconcile_no_servers() {
    let (nodes, actions) = reconcile(
        &[],
        &[],
        &[],
        &[],
        &[],
        at(Utc::now()),
        time::Duration::from_secs(600),
    );

    assert!(nodes.is_empty());
    assert!(actions.is_empty());
}

#[test]
fn carry_forward_preserves_idle_since() {
    let now = Utc::now();
    let original_idle_since = now - Duration::minutes(10);

    let previous = vec![make_node(
        1,
        now - Duration::minutes(30),
        idle(original_idle_since),
    )];

    // reconcile sets this to now
    let mut nodes = vec![make_node(1, now - Duration::minutes(30), idle(now))];

    let timeout = time::Duration::from_secs(600);
    let (durations, actions) = carry_forward_state(&mut nodes, &previous, at(now), timeout);
    assert!(durations.is_empty());
    assert!(actions.is_empty());
    if let NodeState::Idle { idle_since, .. } = &nodes[0].state {
        assert_eq!(*idle_since, at(original_idle_since));
    } else {
        panic!("expected Idle state");
    }
}

#[test]
fn carry_forward_records_provisioning_duration() {
    let now = Utc::now();

    let previous = vec![make_node(
        1,
        now - Duration::seconds(65),
        NodeState::Provisioning,
    )];

    let mut nodes = vec![make_node(
        1,
        now - Duration::seconds(65),
        NodeState::Busy {
            k8s_node_name: "ci-runner-1".into(),
            gitea_runner_id: 100,
            gitea_runner_name: "runner-1".into(),
        },
    )];

    let timeout = time::Duration::from_secs(600);
    let (durations, actions) = carry_forward_state(&mut nodes, &previous, at(now), timeout);
    assert_eq!(durations.len(), 1);
    assert!((durations[0] as f64 - 65.0).abs() < 1.0);
    assert!(actions.is_empty());
}

#[test]
fn carry_forward_preserves_deregistering() {
    let now = Utc::now();

    // Previous: node was in Deregistering (runner already deleted)
    let previous = vec![make_node(
        1,
        now - Duration::minutes(30),
        NodeState::Deregistering {
            k8s_node_name: "ci-runner-1".into(),
            gitea_runner_id: 100,
        },
    )];

    // Reconcile misclassifies it (k8s node exists, no runner -> Provisioning)
    let mut nodes = vec![make_node(
        1,
        now - Duration::minutes(30),
        NodeState::Provisioning,
    )];

    let timeout = time::Duration::from_secs(600);
    let (durations, actions) = carry_forward_state(&mut nodes, &previous, at(now), timeout);
    assert!(durations.is_empty());
    assert!(actions.is_empty());
    assert!(matches!(nodes[0].state, NodeState::Deregistering { .. }));
}

#[test]
fn carry_forward_preserves_removing_without_server() {
    let now = Utc::now();

    // Previous: node was in Removing (k8s node deleted, Hetzner delete pending)
    let previous = vec![make_node(
        1,
        now - Duration::minutes(30),
        NodeState::Removing,
    )];

    // Reconcile doesn't see it at all (Hetzner server already deleted)
    let mut nodes: Vec<ManagedNode> = vec![];

    let timeout = time::Duration::from_secs(600);
    let (durations, actions) = carry_forward_state(&mut nodes, &previous, at(now), timeout);
    assert!(durations.is_empty());
    assert!(actions.is_empty());
    // Should be re-added so teardown_step can retry the Hetzner deletion
    assert_eq!(nodes.len(), 1);
    assert!(matches!(nodes[0].state, NodeState::Removing));
}

#[test]
fn carry_forward_no_previous() {
    let now = Utc::now();

    let mut nodes = vec![make_node(
        1,
        now - Duration::minutes(5),
        NodeState::Provisioning,
    )];

    let timeout = time::Duration::from_secs(600);
    let (durations, actions) = carry_forward_state(&mut nodes, &[], at(now), timeout);
    assert!(durations.is_empty());
    assert!(actions.is_empty());
}

#[test]
fn carry_forward_ghost_provisioning_times_out() {
    let now = Utc::now();
    let timeout = time::Duration::from_secs(600);

    // Previous: node was Provisioning, created 15 mins ago (past 10 min timeout)
    let previous = vec![ManagedNode {
        hetzner_server_id: 42,
        hetzner_server_name: "ci-runner-ghost".into(),
        created_at: at(now - Duration::minutes(15)),
        state: NodeState::Provisioning,
    }];

    // Reconcile doesn't see it (vanished from Hetzner list_servers)
    let mut nodes: Vec<ManagedNode> = vec![];

    let (durations, actions) = carry_forward_state(&mut nodes, &previous, at(now), timeout);
    assert!(durations.is_empty());
    // Should NOT be re-added
    assert!(nodes.is_empty());
    // Should emit a delete action
    assert_eq!(actions.len(), 1);
    assert_eq!(
        actions[0],
        ReconcileAction::DeleteStuckServer { server_id: 42 }
    );
}

#[test]
fn carry_forward_ghost_provisioning_within_timeout() {
    let now = Utc::now();
    let timeout = time::Duration::from_secs(600);

    // Previous: node was Provisioning, created 2 mins ago (within timeout)
    let previous = vec![ManagedNode {
        hetzner_server_id: 42,
        hetzner_server_name: "ci-runner-new".into(),
        created_at: at(now - Duration::minutes(2)),
        state: NodeState::Provisioning,
    }];

    // Reconcile doesn't see it yet (API delay)
    let mut nodes: Vec<ManagedNode> = vec![];

    let (durations, actions) = carry_forward_state(&mut nodes, &previous, at(now), timeout);
    assert!(durations.is_empty());
    assert!(actions.is_empty());
    // Should be re-added (within grace window)
    assert_eq!(nodes.len(), 1);
    assert!(matches!(nodes[0].state, NodeState::Provisioning));
}

fn joined(unschedulable: bool) -> Vec<K8sNode> {
    vec![K8sNode {
        name: "ci-runner-1".into(),
        unschedulable,
    }]
}

fn runner_pod() -> Vec<K8sPod> {
    vec![K8sPod {
        name: "runner-1".into(),
        namespace: "gitea-runners".into(),
        node_name: Some("ci-runner-1".into()),
    }]
}

#[test]
fn a_job_in_progress_makes_its_runner_busy() {
    let (nodes, _) = reconcile(
        &[make_server(1, "ci-runner-1", 10)],
        &joined(false),
        &runner_pod(),
        &[make_runner(100, "runner-1", true, false)],
        &[make_job(1, 100, "runner-1")],
        at(Utc::now()),
        time::Duration::from_secs(600),
    );
    assert_eq!(
        nodes[0].state,
        NodeState::Busy {
            k8s_node_name: "ci-runner-1".into(),
            gitea_runner_id: 100,
            gitea_runner_name: "runner-1".into(),
        }
    );
}

#[test]
fn a_cordoned_node_with_a_runner_is_not_draining() {
    let now = at(Utc::now());
    let (nodes, _) = reconcile(
        &[make_server(1, "ci-runner-1", 10)],
        &joined(true),
        &runner_pod(),
        &[make_runner(100, "runner-1", false, false)],
        &[],
        now,
        time::Duration::from_secs(600),
    );
    assert_eq!(
        nodes[0].state,
        NodeState::Idle {
            k8s_node_name: "ci-runner-1".into(),
            gitea_runner_id: 100,
            gitea_runner_name: "runner-1".into(),
            idle_since: now,
        }
    );
}

#[test]
fn a_joined_node_without_runner_is_provisioning_however_old() {
    let (nodes, actions) = reconcile(
        &[make_server(1, "ci-runner-1", 600)],
        &joined(false),
        &runner_pod(),
        &[],
        &[],
        at(Utc::now()),
        time::Duration::from_secs(600),
    );
    assert_eq!(nodes[0].state, NodeState::Provisioning);
    assert!(actions.is_empty());
}

#[test]
fn a_server_is_stuck_from_the_timeout_on() {
    let created = Timestamp {
        secs: 1_000_000,
        nanos: 500,
    };
    let server = HetznerServer {
        id: 1,
        name: "ci-runner-1".into(),
        created,
        labels: std::collections::HashMap::new(),
    };
    let timeout = time::Duration::from_secs(600);
    let check = |now: Timestamp| {
        let (nodes, actions) =
            reconcile(&[server.clone()], &[], &[], &[], &[], now, timeout);
        assert_eq!(nodes.len() + actions.len(), 1);
        actions.len()
    };
    assert_eq!(
        check(Timestamp {
            secs: 1_000_600,
            nanos: 499
        }),
        0
    );
    assert_eq!(
        check(Timestamp {
            secs: 1_000_600,
            nanos: 500
        }),
        1
    );
}

#[test]
fn a_node_that_is_busy_again_is_no_longer_idle() {
    let now = Utc::now();
    let previous = vec![make_node(1, now - Duration::minutes(30), idle(now))];
    let busy = NodeState::Busy {
        k8s_node_name: "ci-runner-1".into(),
        gitea_runner_id: 100,
        gitea_runner_name: "runner-1".into(),
    };
    let mut nodes = vec![make_node(1, now - Duration::minutes(30), busy.clone())];
    let (durations, actions) = carry_forward_state(
        &mut nodes,
        &previous,
        at(now),
        time::Duration::from_secs(600),
    );
    assert!(durations.is_empty());
    assert!(actions.is_empty());
    assert_eq!(nodes[0].state, busy);
}

#[test]
fn only_removing_and_provisioning_nodes_are_readmitted() {
    let now = Utc::now();
    let previous = vec![
        make_node(1, now, idle(now)),
        make_node(
            2,
            now,
            NodeState::Draining {
                k8s_node_name: "ci-runner-2".into(),
            },
        ),
        make_node(3, now, NodeState::Removing),
        make_node(4, now, NodeState::Provisioning),
    ];
    let mut nodes = vec![];
    carry_forward_state(
        &mut nodes,
        &previous,
        at(now),
        time::Duration::from_secs(600),
    );
    let ids: Vec<i64> = nodes.iter().map(|n| n.hetzner_server_id).collect();
    assert_eq!(ids, vec![3, 4]);
}

#[test]
fn a_server_has_one_node() {
    let now = Utc::now();
    let (mut nodes, _) = reconcile(
        &[make_server(1, "ci-runner-1", 2), make_server(2, "ci-runner-2", 2)],
        &[],
        &[],
        &[],
        &[],
        at(now),
        time::Duration::from_secs(600),
    );
    let previous = vec![
        make_node(2, now, NodeState::Removing),
        make_node(1, now, NodeState::Provisioning),
        make_node(3, now, NodeState::Removing),
    ];
    carry_forward_state(
        &mut nodes,
        &previous,
        at(now),
        time::Duration::from_secs(600),
    );
    let ids: Vec<i64> = nodes.iter().map(|n| n.hetzner_server_id).collect();
    assert_eq!(ids, vec![1, 2, 3]);
    assert_eq!(nodes[0].state, NodeState::Provisioning);
    assert_eq!(nodes[1].state, NodeState::Removing);
}

#[test]
fn stuck_servers_have_no_node_that_runs_jobs() {
    let now = Utc::now();
    let servers = [
        make_server(1, "ci-runner-1", 60),
        make_server(2, "ci-runner-2", 60),
    ];
    let (mut nodes, stuck) = reconcile(
        &servers,
        &joined(false),
        &runner_pod(),
        &[make_runner(100, "runner-1", true, true)],
        &[],
        at(now),
        time::Duration::from_secs(600),
    );
    let previous = vec![
        make_node(1, now - Duration::minutes(60), idle(now)),
        make_node(2, now - Duration::minutes(60), NodeState::Provisioning),
    ];
    let (_, overdue) = carry_forward_state(
        &mut nodes,
        &previous,
        at(now),
        time::Duration::from_secs(600),
    );
    let second = ReconcileAction::DeleteStuckServer { server_id: 2 };
    assert_eq!(stuck, vec![second]);
    assert_eq!(overdue, vec![second]);
    assert_eq!(nodes.len(), 1);
    assert_eq!(nodes[0].hetzner_server_id, 1);
}

#[test]
fn carrying_over_again_changes_nothing() {
    let now = Utc::now();
    let timeout = time::Duration::from_secs(600);
    let created = now - Duration::minutes(2);
    let previous = vec![
        make_node(1, created, idle(now - Duration::minutes(1))),
        make_node(2, created, NodeState::Provisioning),
        make_node(3, created, NodeState::Removing),
        make_node(4, now - Duration::minutes(15), NodeState::Provisioning),
        make_node(5, created, NodeState::Provisioning),
    ];
    let busy = NodeState::Busy {
        k8s_node_name: "ci-runner-2".into(),
        gitea_runner_id: 101,
        gitea_runner_name: "runner-2".into(),
    };
    let mut nodes = vec![make_node(1, created, idle(now)), make_node(2, created, busy)];
    let once = carry_forward_state(&mut nodes, &previous, at(now), timeout);
    let after: Vec<(i64, NodeState)> = nodes
        .iter()
        .map(|n| (n.hetzner_server_id, n.state.clone()))
        .collect();
    assert_eq!(once.0, vec![120]);
    assert_eq!(
        once.1,
        vec![ReconcileAction::DeleteStuckServer { server_id: 4 }]
    );
    let twice = carry_forward_state(&mut nodes, &previous, at(now), timeout);
    assert_eq!(once, twice);
    let again: Vec<(i64, NodeState)> = nodes
        .iter()
        .map(|n| (n.hetzner_server_id, n.state.clone()))
        .collect();
    assert_eq!(after, again);
    assert_eq!(after.len(), 4);
}
