use chrono::{DateTime, Duration, Utc};
use gitea_ci_autoscaler::config::Config;
use gitea_ci_autoscaler::control_loop::{
    failures_in_a_row, Autoscaler, Reply, Request, Stage,
};
use gitea_ci_autoscaler::gitea::{Job, JobStatus, Runner, RunnerLabel};
use gitea_ci_autoscaler::hetzner::HetznerServer;
use gitea_ci_autoscaler::k8s::{K8sNode, K8sPod};
use gitea_ci_autoscaler::metrics::Metrics;
use gitea_ci_autoscaler::node_manager::{ManagedNode, NodeManager, NodeState, TeardownCall};
use gitea_ci_autoscaler::time::Timestamp;

fn at(t: DateTime<Utc>) -> Timestamp {
    Timestamp {
        secs: t.timestamp(),
        nanos: t.timestamp_subsec_nanos(),
    }
}

fn make_config() -> Config {
    Config {
        poll_interval_secs: 5,
        max_nodes: 5,
        idle_timeout_mins: 5,
        billing_window_mins: 5,
        provisioning_timeout_secs: 600,
        hetzner_server_type: "ccx33".into(),
        hetzner_location: "nbg1".into(),
        hetzner_image: "ubuntu-24.04".into(),
        hetzner_api_token: "test".into(),
        cluster_secret: "test-token".into(),
        gitea_api_url: "http://localhost:3000".into(),
        gitea_admin_token: "test".into(),
        pushgateway_url: "http://localhost:9091".into(),
        runner_namespace: "gitea-runners".into(),
        k3s_agent_args: "--node-label=managed-by=gitea-ci-autoscaler".into(),
    }
}

fn make_autoscaler() -> Autoscaler {
    Autoscaler::new(
        make_config(),
        NodeManager::new("v1.32.0+k3s1".into(), "10.0.0.1".into()),
        Metrics::new(),
    )
}

fn make_waiting_linux_job(id: u64) -> Job {
    Job {
        id,
        name: format!("job-{id}"),
        labels: vec!["self-hosted".into(), "linux".into()],
        status: "waiting".into(),
        runner_id: None,
        runner_name: None,
    }
}

fn make_in_progress_job(id: u64, runner_id: u64, runner_name: &str) -> Job {
    Job {
        id,
        name: format!("job-{id}"),
        labels: vec!["self-hosted".into(), "linux".into()],
        status: "in_progress".into(),
        runner_id: Some(runner_id),
        runner_name: Some(runner_name.to_string()),
    }
}

fn make_runner(id: u64, name: &str, online: bool, busy: bool) -> Runner {
    Runner {
        id,
        name: name.to_string(),
        status: if online { "online" } else { "offline" }.to_string(),
        busy,
        labels: vec![RunnerLabel {
            name: "linux".to_string(),
        }],
    }
}

fn make_server(id: i64, name: &str, created: DateTime<Utc>) -> HetznerServer {
    HetznerServer {
        id,
        name: name.into(),
        created: at(created),
        labels: std::collections::HashMap::new(),
    }
}

/// The outside services, and a record of what they were asked to do.
struct World {
    jobs: Vec<Job>,
    runners: Vec<Runner>,
    servers: Vec<HetznerServer>,
    nodes: Vec<K8sNode>,
    pods: Vec<K8sPod>,
    fail_list_jobs: bool,
    fail_list_runners: bool,
    fail_list_servers: bool,
    fail_list_nodes: bool,
    fail_list_pods: bool,
    fail_create: bool,
    fail_delete: bool,
    hide_new_servers: bool,
    create_calls: Vec<(String, String)>,
    delete_calls: Vec<i64>,
    delete_runner_calls: Vec<u64>,
    drain_calls: Vec<String>,
    delete_node_calls: Vec<String>,
    calls: usize,
    next_server_id: i64,
}

impl World {
    fn new() -> World {
        World {
            jobs: vec![],
            runners: vec![],
            servers: vec![],
            nodes: vec![],
            pods: vec![],
            fail_list_jobs: false,
            fail_list_runners: false,
            fail_list_servers: false,
            fail_list_nodes: false,
            fail_list_pods: false,
            fail_create: false,
            fail_delete: false,
            hide_new_servers: false,
            create_calls: vec![],
            delete_calls: vec![],
            delete_runner_calls: vec![],
            drain_calls: vec![],
            delete_node_calls: vec![],
            calls: 0,
            next_server_id: 1000,
        }
    }

    fn delete_server(&mut self, server_id: i64) -> Reply {
        if self.fail_delete {
            return Reply::Failed;
        }
        self.delete_calls.push(server_id);
        self.servers.retain(|s| s.id != server_id);
        Reply::Done
    }

    fn answer(&mut self, request: Request) -> Reply {
        self.calls += 1;
        match request {
            Request::ListJobs { .. } if self.fail_list_jobs => Reply::Failed,
            Request::ListJobs { status } => Reply::Jobs(
                self.jobs
                    .iter()
                    .filter(|j| j.status == status.as_str())
                    .cloned()
                    .collect(),
            ),
            Request::ListRunners if self.fail_list_runners => Reply::Failed,
            Request::ListRunners => Reply::Runners(self.runners.clone()),
            Request::ListServers { .. } if self.fail_list_servers => Reply::Failed,
            Request::ListServers { label_selector } => {
                assert_eq!(label_selector, "managed-by=gitea-ci-autoscaler");
                Reply::Servers(self.servers.clone())
            }
            Request::ListNodes { .. } if self.fail_list_nodes => Reply::Failed,
            Request::ListNodes { label_selector } => {
                assert_eq!(label_selector, "managed-by=gitea-ci-autoscaler");
                Reply::Nodes(self.nodes.clone())
            }
            Request::ListPods { .. } if self.fail_list_pods => Reply::Failed,
            Request::ListPods {
                namespace,
                label_selector,
            } => {
                assert_eq!(namespace, "gitea-runners");
                assert_eq!(label_selector, "app=gitea-actions-runner");
                Reply::Pods(self.pods.clone())
            }
            Request::CreateServer { .. } if self.fail_create => Reply::Failed,
            Request::CreateServer { name, cloud_init } => {
                self.create_calls.push((name.clone(), cloud_init));
                let server = make_server(self.next_server_id, &name, Utc::now());
                self.next_server_id += 1;
                if !self.hide_new_servers {
                    self.servers.push(server.clone());
                }
                Reply::Created(server)
            }
            Request::DeleteStuckServer { server_id } => self.delete_server(server_id),
            Request::Teardown(TeardownCall::DeleteServer { server_id }) => {
                self.delete_server(server_id)
            }
            Request::Teardown(TeardownCall::DeleteRunner { runner_id }) => {
                self.delete_runner_calls.push(runner_id);
                Reply::Done
            }
            Request::Teardown(TeardownCall::DrainNode { node_name }) => {
                self.drain_calls.push(node_name);
                Reply::Done
            }
            Request::Teardown(TeardownCall::DeleteNode { node_name }) => {
                self.delete_node_calls.push(node_name);
                Reply::Done
            }
        }
    }

    /// Runs one iteration and returns whether it went through.
    fn run(&mut self, autoscaler: &mut Autoscaler) -> bool {
        autoscaler.begin();
        while let Some(request) = autoscaler.request() {
            let reply = self.answer(request);
            autoscaler.advance(reply);
        }
        match autoscaler.stage {
            Stage::Finished { succeeded } => succeeded,
            _ => panic!("the iteration is not over"),
        }
    }

    /// A server whose node has joined and whose runner is registered.
    fn add_runner_node(&mut self, id: i64, created: DateTime<Utc>, busy: bool) {
        let name = format!("ci-runner-{id}");
        let runner_name = format!("runner-{id}");
        self.servers.push(make_server(id, &name, created));
        self.nodes.push(K8sNode {
            name: name.clone(),
            unschedulable: false,
        });
        self.pods.push(K8sPod {
            name: runner_name.clone(),
            namespace: "gitea-runners".into(),
            node_name: Some(name),
        });
        self.runners
            .push(make_runner(99 + id as u64, &runner_name, true, busy));
    }
}

fn idle_node(id: i64, created: DateTime<Utc>, idle_since: DateTime<Utc>) -> ManagedNode {
    ManagedNode {
        hetzner_server_id: id,
        hetzner_server_name: format!("ci-runner-{id}"),
        created_at: at(created),
        state: NodeState::Idle {
            k8s_node_name: format!("ci-runner-{id}"),
            gitea_runner_id: 99 + id as u64,
            gitea_runner_name: format!("runner-{id}"),
            idle_since: at(idle_since),
        },
    }
}

#[test]
fn full_loop_scale_up() {
    let mut world = World::new();
    let mut autoscaler = make_autoscaler();

    // 2 waiting linux jobs, no nodes
    world
        .jobs
        .extend(vec![make_waiting_linux_job(1), make_waiting_linux_job(2)]);

    assert!(world.run(&mut autoscaler));

    assert_eq!(world.create_calls.len(), 2);
    assert_eq!(autoscaler.manager.nodes.len(), 2);
}

#[test]
fn full_loop_no_action() {
    let mut world = World::new();
    let mut autoscaler = make_autoscaler();
    let created = Utc::now() - Duration::minutes(10);

    // Hetzner server + k8s node + pod + busy runner + in-progress job
    world.servers.push(make_server(1, "ci-runner-1", created));
    world.nodes.push(K8sNode {
        name: "ci-runner-1".into(),
        unschedulable: false,
    });
    world.pods.push(K8sPod {
        name: "runner-1".into(),
        namespace: "gitea-runners".into(),
        node_name: Some("ci-runner-1".into()),
    });
    world.runners.push(make_runner(100, "runner-1", true, true));
    world.jobs.push(make_in_progress_job(1, 100, "runner-1"));

    assert!(world.run(&mut autoscaler));

    assert_eq!(world.create_calls.len(), 0);
    assert_eq!(autoscaler.manager.nodes.len(), 1);
    assert!(matches!(
        autoscaler.manager.nodes[0].state,
        NodeState::Busy { .. }
    ));
}

#[test]
fn full_loop_scale_down() {
    let mut world = World::new();
    let mut autoscaler = make_autoscaler();

    let now = Utc::now();
    let created = now - Duration::minutes(56);

    // Hetzner server + k8s node + pod + idle runner
    world.servers.push(make_server(1, "ci-runner-1", created));
    world.nodes.push(K8sNode {
        name: "ci-runner-1".into(),
        unschedulable: false,
    });
    world.pods.push(K8sPod {
        name: "runner-1".into(),
        namespace: "gitea-runners".into(),
        node_name: Some("ci-runner-1".into()),
    });
    world
        .runners
        .push(make_runner(100, "runner-1", true, false));

    // Previous state with idle_since in the past so that it is carried forward
    autoscaler
        .manager
        .nodes
        .push(idle_node(1, created, now - Duration::minutes(6))); // past timeout

    assert!(world.run(&mut autoscaler));

    // Should have started teardown (deregistered runner)
    assert_eq!(world.delete_runner_calls.len(), 1);
}

#[test]
fn full_loop_skip_on_gitea_failure() {
    let mut world = World::new();
    let mut autoscaler = make_autoscaler();
    world.fail_list_jobs = true;

    assert!(world.run(&mut autoscaler));

    // No actions taken
    assert_eq!(world.create_calls.len(), 0);
}

#[test]
fn no_double_scaleup_with_provisioning() {
    let mut world = World::new();
    let mut autoscaler = make_autoscaler();

    // 1 waiting job
    world.jobs.push(make_waiting_linux_job(1));

    // 1 Hetzner server with no k8s node yet → reconcile classifies as Provisioning
    world.servers.push(make_server(
        1,
        "ci-runner-1",
        Utc::now() - Duration::seconds(30),
    ));

    assert!(world.run(&mut autoscaler));

    // Should NOT create another server
    assert_eq!(world.create_calls.len(), 0);
    assert_eq!(autoscaler.manager.nodes.len(), 1);
    assert!(matches!(
        autoscaler.manager.nodes[0].state,
        NodeState::Provisioning
    ));
}

#[test]
fn no_duplicate_delete_for_stuck_server() {
    let mut world = World::new();
    let mut autoscaler = make_autoscaler();
    let created = Utc::now() - Duration::minutes(15); // past 10 min timeout

    // Hetzner still shows the stuck server (no k8s node) → reconcile emits DeleteStuckServer
    world
        .servers
        .push(make_server(42, "ci-runner-stuck", created));

    // Previous iteration had this server as Provisioning → carry_forward also emits
    // DeleteStuckServer
    autoscaler.manager.nodes.push(ManagedNode {
        hetzner_server_id: 42,
        hetzner_server_name: "ci-runner-stuck".into(),
        created_at: at(created),
        state: NodeState::Provisioning,
    });

    assert!(world.run(&mut autoscaler));

    // Should only delete once, not twice
    assert_eq!(world.delete_calls.len(), 1);
    assert_eq!(world.delete_calls[0], 42);
}

#[test]
fn several_stuck_servers_are_each_deleted_once() {
    let mut world = World::new();
    let mut autoscaler = make_autoscaler();
    let created = Utc::now() - Duration::minutes(15);
    for id in [42i64, 43, 44] {
        let name = format!("ci-runner-{id}");
        world.servers.push(make_server(id, &name, created));
        autoscaler.manager.nodes.push(ManagedNode {
            hetzner_server_id: id,
            hetzner_server_name: name,
            created_at: at(created),
            state: NodeState::Provisioning,
        });
    }

    assert!(world.run(&mut autoscaler));
    assert_eq!(world.delete_calls, vec![42, 43, 44]);
    assert_eq!(autoscaler.metrics.nodes_deleted_total, 3);
    assert_eq!(autoscaler.metrics.scale_up_errors_total, 3);
}

#[test]
fn a_whole_teardown() {
    let mut world = World::new();
    let mut autoscaler = make_autoscaler();
    let now = Utc::now();
    let created = now - Duration::minutes(56);
    world.add_runner_node(1, created, false);
    autoscaler
        .manager
        .nodes
        .push(idle_node(1, created, now - Duration::minutes(6)));

    // An idle node is deregistered and drained in one iteration.
    assert!(world.run(&mut autoscaler));
    assert_eq!(world.delete_runner_calls, vec![100]);
    assert_eq!(world.drain_calls, vec!["ci-runner-1".to_string()]);
    assert!(world.delete_node_calls.is_empty());
    assert!(matches!(
        autoscaler.manager.nodes[0].state,
        NodeState::Draining { .. }
    ));

    // The next one deletes the node and the server, if it can.
    world.fail_delete = true;
    assert!(world.run(&mut autoscaler));
    assert_eq!(world.delete_node_calls, vec!["ci-runner-1".to_string()]);
    assert_eq!(autoscaler.manager.nodes[0].state, NodeState::Removing);

    world.fail_delete = false;
    assert!(world.run(&mut autoscaler));
    assert_eq!(world.delete_calls, vec![1]);
    assert!(autoscaler.manager.nodes.is_empty());
    assert_eq!(world.delete_node_calls.len(), 1);
    assert_eq!(autoscaler.metrics.nodes_deleted_total, 1);
    assert_eq!(autoscaler.metrics.managed_nodes.get("removing"), Some(0));
}

#[test]
fn several_nodes_leave_at_once() {
    let mut world = World::new();
    let mut autoscaler = make_autoscaler();
    let now = Utc::now();
    let created = now - Duration::minutes(56);
    for id in 1..5i64 {
        world.add_runner_node(id, created, id == 2);
        if id != 2 {
            autoscaler
                .manager
                .nodes
                .push(idle_node(id, created, now - Duration::minutes(6)));
        }
    }

    while autoscaler.manager.nodes.len() != 1 || world.delete_calls.is_empty() {
        assert!(world.run(&mut autoscaler));
    }
    // From the last to the first, and the busy one stays.
    assert_eq!(world.delete_runner_calls, vec![103, 102, 100]);
    assert_eq!(world.delete_calls, vec![4, 3, 1]);
    assert_eq!(autoscaler.manager.nodes[0].hetzner_server_id, 2);
}

#[test]
fn servers_that_are_not_listed_yet_count() {
    let mut world = World::new();
    let mut autoscaler = make_autoscaler();
    world.hide_new_servers = true;
    world
        .jobs
        .extend(vec![make_waiting_linux_job(1), make_waiting_linux_job(2)]);

    assert!(world.run(&mut autoscaler));
    assert_eq!(world.create_calls.len(), 2);
    assert!(world.run(&mut autoscaler));
    assert_eq!(world.create_calls.len(), 2);
    assert_eq!(autoscaler.manager.nodes.len(), 2);
}

#[test]
fn new_servers_are_named_and_told_to_join() {
    let mut world = World::new();
    let mut autoscaler = make_autoscaler();
    world
        .jobs
        .extend((1..10u64).map(make_waiting_linux_job));

    assert!(world.run(&mut autoscaler));
    assert_eq!(world.create_calls.len(), 5);
    assert_eq!(autoscaler.metrics.desired_nodes, 5);
    assert_eq!(autoscaler.metrics.linux_jobs_waiting, 9);
    let mut names: Vec<&String> = world.create_calls.iter().map(|c| &c.0).collect();
    for name in &names {
        assert_eq!(name.len(), 18);
        assert!(name.starts_with("ci-runner-"));
        assert!(name[10..].chars().all(|c| c.is_ascii_hexdigit()));
    }
    names.sort();
    names.dedup();
    assert_eq!(names.len(), 5);
    assert_eq!(
        world.create_calls[0].1,
        "#cloud-config\nruncmd:\n  - curl -sfL https://get.k3s.io | \
         K3S_URL=https://10.0.0.1:6443 K3S_TOKEN=test-token \
         INSTALL_K3S_VERSION=v1.32.0+k3s1 sh -s - agent \
         --node-label=managed-by=gitea-ci-autoscaler"
    );
}

#[test]
fn failed_creations_are_tried_again() {
    let mut world = World::new();
    let mut autoscaler = make_autoscaler();
    world.jobs.push(make_waiting_linux_job(1));
    world.fail_create = true;
    assert!(world.run(&mut autoscaler));
    assert!(autoscaler.manager.nodes.is_empty());
    assert_eq!(autoscaler.metrics.scale_up_errors_total, 1);
    world.fail_create = false;
    assert!(world.run(&mut autoscaler));
    assert_eq!(autoscaler.manager.nodes.len(), 1);
}

#[test]
fn without_gitea_nothing_changes() {
    let now = Utc::now();
    for fail_jobs in [true, false] {
        let mut world = World::new();
        let mut autoscaler = make_autoscaler();
        autoscaler.manager.nodes.push(idle_node(1, now, now));
        world.jobs.push(make_waiting_linux_job(1));
        world.fail_list_jobs = fail_jobs;
        world.fail_list_runners = !fail_jobs;
        assert!(world.run(&mut autoscaler));
        assert_eq!(world.calls, if fail_jobs { 1 } else { 4 });
        assert_eq!(autoscaler.manager.nodes.len(), 1);
        assert_eq!(autoscaler.metrics.linux_jobs_waiting, 0);
    }
}

#[test]
fn without_the_cluster_the_iteration_fails() {
    let now = Utc::now();
    for missing in 0..3 {
        let mut world = World::new();
        let mut autoscaler = make_autoscaler();
        autoscaler.manager.nodes.push(idle_node(1, now, now));
        world.fail_list_servers = missing == 0;
        world.fail_list_nodes = missing == 1;
        world.fail_list_pods = missing == 2;
        assert!(!world.run(&mut autoscaler));
        assert_eq!(world.calls, 5 + missing);
        assert_eq!(autoscaler.manager.nodes.len(), 1);
    }
}

#[test]
fn provisioning_times_are_handed_out_once() {
    let mut world = World::new();
    let mut autoscaler = make_autoscaler();
    let created = Utc::now() - Duration::seconds(65);
    world.add_runner_node(1, created, false);
    autoscaler.manager.nodes.push(ManagedNode {
        hetzner_server_id: 1,
        hetzner_server_name: "ci-runner-1".into(),
        created_at: at(created),
        state: NodeState::Provisioning,
    });
    assert!(world.run(&mut autoscaler));
    let times = autoscaler.metrics.take_provisioning_durations();
    assert_eq!(times.len(), 1);
    assert!(times[0] >= 65 && times[0] < 75);
    assert!(autoscaler.metrics.take_provisioning_durations().is_empty());
}

#[test]
fn an_answer_to_another_question_is_a_failure() {
    let mut autoscaler = make_autoscaler();
    autoscaler.begin();
    assert!(matches!(
        autoscaler.request(),
        Some(Request::ListJobs {
            status: JobStatus::Waiting
        })
    ));
    autoscaler.advance(Reply::Runners(vec![]));
    assert!(autoscaler.request().is_none());
}

#[test]
fn an_iteration_at_a_given_time() {
    let mut autoscaler = make_autoscaler();
    let now = Timestamp {
        secs: 1_700_003_400,
        nanos: 0,
    };
    let created = Timestamp {
        secs: 1_700_000_000,
        nanos: 0,
    };
    autoscaler.begin();
    autoscaler.advance_at(Reply::Jobs(vec![make_waiting_linux_job(1)]), now);
    autoscaler.advance_at(Reply::Jobs(vec![make_waiting_linux_job(2)]), now);
    autoscaler.advance_at(Reply::Jobs(vec![]), now);
    // One permanent runner is free, so one of the two jobs needs a server.
    autoscaler.advance_at(Reply::Runners(vec![make_runner(1, "own", true, false)]), now);
    let stuck = HetznerServer {
        id: 7,
        name: "ci-runner-7".into(),
        created,
        labels: std::collections::HashMap::new(),
    };
    autoscaler.advance_at(Reply::Servers(vec![stuck]), now);
    autoscaler.advance_at(Reply::Nodes(vec![]), now);
    autoscaler.advance_at(Reply::Pods(vec![]), now);
    match autoscaler.request_with("0123456789") {
        Some(Request::DeleteStuckServer { server_id }) => assert_eq!(server_id, 7),
        other => panic!("{:?}", other),
    }
    autoscaler.advance_at(Reply::Failed, now);
    match autoscaler.request_with("0123456789") {
        Some(Request::CreateServer { name, .. }) => assert_eq!(name, "ci-runner-01234567"),
        other => panic!("{:?}", other),
    }
    autoscaler.advance_at(Reply::Failed, now);
    assert!(autoscaler.request_with("0123456789").is_none());
    assert!(matches!(
        autoscaler.stage,
        Stage::Finished { succeeded: true }
    ));
    assert_eq!(autoscaler.metrics.desired_nodes, 1);
    assert_eq!(autoscaler.metrics.scale_up_errors_total, 1);
    assert_eq!(autoscaler.metrics.nodes_deleted_total, 0);
}

#[test]
fn failures_are_counted_until_one_succeeds() {
    assert_eq!(failures_in_a_row(0, false), 1);
    assert_eq!(failures_in_a_row(1, false), 2);
    assert_eq!(failures_in_a_row(2, true), 0);
}

/// A server whose node has joined and whose runner is not registered.
fn add_node_without_runner(world: &mut World, id: i64, created: DateTime<Utc>) {
    world.add_runner_node(id, created, false);
    world.runners.pop();
}

#[test]
fn a_node_that_never_gets_its_runner_is_deleted() {
    let mut world = World::new();
    let mut autoscaler = make_autoscaler();
    world.jobs.push(make_waiting_linux_job(1));
    add_node_without_runner(&mut world, 1, Utc::now() - Duration::minutes(2));
    add_node_without_runner(&mut world, 2, Utc::now() - Duration::minutes(15)); // past timeout

    world.fail_delete = true;
    assert!(world.run(&mut autoscaler));
    let ids: Vec<i64> = autoscaler
        .manager
        .nodes
        .iter()
        .map(|n| n.hetzner_server_id)
        .collect();
    assert_eq!(ids, vec![1]);
    assert!(world.create_calls.is_empty());

    // What could not be deleted is tried again.
    world.fail_delete = false;
    assert!(world.run(&mut autoscaler));
    assert_eq!(world.delete_calls, vec![2]);
    assert_eq!(autoscaler.metrics.nodes_deleted_total, 1);
    assert!(world.run(&mut autoscaler));
    assert_eq!(world.delete_calls, vec![2]);
}

#[test]
fn a_late_node_is_no_capacity() {
    let mut world = World::new();
    let mut autoscaler = make_autoscaler();
    world.jobs.push(make_waiting_linux_job(1));
    add_node_without_runner(&mut world, 1, Utc::now() - Duration::minutes(15));
    assert!(world.run(&mut autoscaler));
    assert_eq!(world.delete_calls, vec![1]);
    assert_eq!(world.create_calls.len(), 1);
}

#[test]
fn a_node_that_loses_its_runner_is_kept() {
    let mut world = World::new();
    let mut autoscaler = make_autoscaler();
    world.add_runner_node(1, Utc::now() - Duration::minutes(15), true);
    assert!(world.run(&mut autoscaler));
    assert_eq!(autoscaler.ready_servers, vec![1]);

    // However long the runner stays away.
    world.runners.clear();
    for _ in 0..3 {
        assert!(world.run(&mut autoscaler));
        assert!(world.delete_calls.is_empty());
        assert_eq!(
            autoscaler.manager.nodes[0].state,
            NodeState::Provisioning
        );
        assert_eq!(autoscaler.ready_servers, vec![1]);
    }

    // A server that is gone is not remembered.
    world.servers.clear();
    autoscaler.manager.nodes.clear();
    assert!(world.run(&mut autoscaler));
    assert!(autoscaler.ready_servers.is_empty());
}

#[test]
fn a_previous_state_is_remembered_too() {
    let mut world = World::new();
    let mut autoscaler = make_autoscaler();
    let created = Utc::now() - Duration::minutes(15);
    add_node_without_runner(&mut world, 1, created);
    autoscaler
        .manager
        .nodes
        .push(idle_node(1, created, Utc::now()));
    assert!(world.run(&mut autoscaler));
    assert!(world.delete_calls.is_empty());
    assert_eq!(autoscaler.ready_servers, vec![1]);
}

#[test]
fn what_the_machine_can_go_on_with() {
    let now = at(Utc::now());
    let created = Utc::now();
    let mut world = World::new();
    world.add_runner_node(1, created, false);
    let pods = || Reply::Pods(vec![]);
    let at_pods = |config: Config, world: &mut World| {
        let mut autoscaler = Autoscaler::new(
            config,
            NodeManager::new("v1.32.0+k3s1".into(), "10.0.0.1".into()),
            Metrics::new(),
        );
        autoscaler.begin();
        for _ in 0..6 {
            let reply = world.answer(autoscaler.request().unwrap());
            assert!(autoscaler.can_advance(&reply, now));
            autoscaler.advance_at(reply, now);
        }
        autoscaler
    };

    assert!(at_pods(make_config(), &mut world).can_advance(&pods(), now));
    let mut too_long = make_config();
    too_long.provisioning_timeout_secs = u64::MAX;
    let autoscaler = at_pods(too_long, &mut world);
    assert!(!autoscaler.can_advance(&pods(), now));
    assert!(autoscaler.can_advance(&Reply::Failed, now));

    // An idle timeout that is too long matters where a node is idle.
    let mut too_idle = make_config();
    too_idle.idle_timeout_mins = u64::MAX / 60;
    let autoscaler = at_pods(too_idle, &mut world);
    assert!(autoscaler.can_advance(&pods(), now));
    assert!(!autoscaler.can_advance(&Reply::Pods(world.pods.clone()), now));

    let mut autoscaler = make_autoscaler();
    autoscaler.begin();
    let mut server = make_server(1, "ci-runner-1", created);
    server.created = Timestamp { secs: i64::MAX, nanos: 0 };
    assert!(!autoscaler.can_advance(&Reply::Created(server.clone()), now));
    assert!(!autoscaler.can_advance(&Reply::Servers(vec![server]), now));
}
