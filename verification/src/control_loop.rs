//! One iteration of the control loop, as a state machine.
//!
//! At each stage the machine names the call to an outside service that comes next, and moves on
//! when it is told how that call ended.

use vstd::prelude::*;

use crate::cloud_init::{cloud_config, render_with_args};
use crate::config::{Config, ConfigView};
use crate::gitea::{
    filter_linux_jobs, for_linux, linux_count, retain_linux_jobs, Job, JobStatus, JobView, Runner,
    RunnerView,
};
use crate::hetzner::{
    managed_selector, selector, HetznerServer, ServerView, MANAGED_BY_LABEL, MANAGED_BY_VALUE,
};
use crate::k8s::{K8sNode, K8sNodeView, K8sPod, K8sPodView, NODE_SELECTOR, RUNNER_POD_SELECTOR};
use crate::metrics::{Metrics, MetricsView};
use crate::node_manager::{
    all_wf, has_idle, has_permanent_capacity, is_in_teardown, is_teardown_candidate,
    is_uuid_v4_text, metrics_after_teardown_call, metrics_of_nodes, new_uuid_text,
    next_teardown_call, nodes_after_teardown_call, permanent_runner_capacity,
    progress_after_teardown_call, runner_name_of, scale_up_count, server_name, ManagedNode,
    NodeManager, NodeManagerView, NodeState, NodeStateView, NodeView, TeardownCall,
    TeardownCallView, TeardownProgress,
};
use crate::reconcile::{
    carried_node, carry_forward_state, node_of_server, observed_node, overdue, provisioned_in,
    reconcile, stuck_action, with_readmitted, younger_than, Observation, ReconcileAction,
};
use crate::seqs::{
    distinct, distinct_is_exact, indices_where, indices_where_is_exact, ints, lemma_filter_take,
    lemma_remove_first_elements, lemma_take_one_more, lemma_views_push, remove_first, views,
};
use crate::time::{Duration, Span, Timestamp};

verus! {

/// Where an iteration stands: the call that comes next, and what is known so far.
#[derive(Debug)]
pub enum Stage {
    ListWaitingJobs,
    ListQueuedJobs { waiting: usize },
    ListInProgressJobs { waiting: usize },
    ListRunners { waiting: usize, in_progress: Vec<Job> },
    ListServers { waiting: usize, in_progress: Vec<Job>, runners: Vec<Runner> },
    ListNodes {
        waiting: usize,
        in_progress: Vec<Job>,
        runners: Vec<Runner>,
        servers: Vec<HetznerServer>,
    },
    ListPods {
        waiting: usize,
        in_progress: Vec<Job>,
        runners: Vec<Runner>,
        servers: Vec<HetznerServer>,
        nodes: Vec<K8sNode>,
    },
    /// The servers in `server_ids` are to be deleted, in that order.
    DeleteStuckServers {
        now: Timestamp,
        waiting: usize,
        runners: Vec<Runner>,
        server_ids: Vec<i64>,
    },
    CreateServers { now: Timestamp, count: usize },
    /// The idle nodes at `indices` are to leave, from the last one to the first.
    StartTeardown { now: Timestamp, indices: Vec<usize> },
    /// The nodes at `indices` are leaving, and go one step further, from the last one to the
    /// first.
    ContinueTeardown { now: Timestamp, indices: Vec<usize> },
    Finished { succeeded: bool },
}

pub enum StageView {
    ListWaitingJobs,
    ListQueuedJobs { waiting: int },
    ListInProgressJobs { waiting: int },
    ListRunners { waiting: int, in_progress: Seq<JobView> },
    ListServers { waiting: int, in_progress: Seq<JobView>, runners: Seq<RunnerView> },
    ListNodes {
        waiting: int,
        in_progress: Seq<JobView>,
        runners: Seq<RunnerView>,
        servers: Seq<ServerView>,
    },
    ListPods {
        waiting: int,
        in_progress: Seq<JobView>,
        runners: Seq<RunnerView>,
        servers: Seq<ServerView>,
        nodes: Seq<K8sNodeView>,
    },
    DeleteStuckServers {
        now: Timestamp,
        waiting: int,
        runners: Seq<RunnerView>,
        server_ids: Seq<i64>,
    },
    CreateServers { now: Timestamp, count: int },
    StartTeardown { now: Timestamp, indices: Seq<int> },
    ContinueTeardown { now: Timestamp, indices: Seq<int> },
    Finished { succeeded: bool },
}

impl View for Stage {
    type V = StageView;

    open spec fn view(&self) -> StageView {
        match *self {
            Stage::ListWaitingJobs => StageView::ListWaitingJobs,
            Stage::ListQueuedJobs { waiting } => StageView::ListQueuedJobs {
                waiting: waiting as int,
            },
            Stage::ListInProgressJobs { waiting } => StageView::ListInProgressJobs {
                waiting: waiting as int,
            },
            Stage::ListRunners { waiting, in_progress } => StageView::ListRunners {
                waiting: waiting as int,
                in_progress: views(in_progress@),
            },
            Stage::ListServers { waiting, in_progress, runners } => StageView::ListServers {
                waiting: waiting as int,
                in_progress: views(in_progress@),
                runners: views(runners@),
            },
            Stage::ListNodes { waiting, in_progress, runners, servers } => StageView::ListNodes {
                waiting: waiting as int,
                in_progress: views(in_progress@),
                runners: views(runners@),
                servers: views(servers@),
            },
            Stage::ListPods { waiting, in_progress, runners, servers, nodes } =>
                StageView::ListPods {
                waiting: waiting as int,
                in_progress: views(in_progress@),
                runners: views(runners@),
                servers: views(servers@),
                nodes: views(nodes@),
            },
            Stage::DeleteStuckServers { now, waiting, runners, server_ids } =>
                StageView::DeleteStuckServers {
                now,
                waiting: waiting as int,
                runners: views(runners@),
                server_ids: server_ids@,
            },
            Stage::CreateServers { now, count } => StageView::CreateServers {
                now,
                count: count as int,
            },
            Stage::StartTeardown { now, indices } => StageView::StartTeardown {
                now,
                indices: ints(indices@),
            },
            Stage::ContinueTeardown { now, indices } => StageView::ContinueTeardown {
                now,
                indices: ints(indices@),
            },
            Stage::Finished { succeeded } => StageView::Finished { succeeded },
        }
    }
}

/// A call to an outside service.
#[derive(Debug)]
pub enum Request {
    ListJobs { status: JobStatus },
    ListRunners,
    ListServers { label_selector: String },
    ListNodes { label_selector: String },
    ListPods { namespace: String, label_selector: String },
    DeleteStuckServer { server_id: i64 },
    CreateServer { name: String, cloud_init: String },
    Teardown(TeardownCall),
}

pub enum RequestView {
    ListJobs { status: JobStatus },
    ListRunners,
    ListServers { label_selector: Seq<char> },
    ListNodes { label_selector: Seq<char> },
    ListPods { namespace: Seq<char>, label_selector: Seq<char> },
    DeleteStuckServer { server_id: i64 },
    CreateServer { name: Seq<char>, cloud_init: Seq<char> },
    Teardown(TeardownCallView),
}

impl View for Request {
    type V = RequestView;

    open spec fn view(&self) -> RequestView {
        match *self {
            Request::ListJobs { status } => RequestView::ListJobs { status },
            Request::ListRunners => RequestView::ListRunners,
            Request::ListServers { label_selector } => RequestView::ListServers {
                label_selector: label_selector@,
            },
            Request::ListNodes { label_selector } => RequestView::ListNodes {
                label_selector: label_selector@,
            },
            Request::ListPods { namespace, label_selector } => RequestView::ListPods {
                namespace: namespace@,
                label_selector: label_selector@,
            },
            Request::DeleteStuckServer { server_id } => RequestView::DeleteStuckServer {
                server_id,
            },
            Request::CreateServer { name, cloud_init } => RequestView::CreateServer {
                name: name@,
                cloud_init: cloud_init@,
            },
            Request::Teardown(call) => RequestView::Teardown(call@),
        }
    }
}

/// How a call ended: with what was asked for, without anything to return, or not at all. An
/// answer to another question than the one that was asked counts as a failure.
#[derive(Debug)]
pub enum Reply {
    Jobs(Vec<Job>),
    Runners(Vec<Runner>),
    Servers(Vec<HetznerServer>),
    Nodes(Vec<K8sNode>),
    Pods(Vec<K8sPod>),
    Created(HetznerServer),
    Done,
    Failed,
}

pub enum ReplyView {
    Jobs(Seq<JobView>),
    Runners(Seq<RunnerView>),
    Servers(Seq<ServerView>),
    Nodes(Seq<K8sNodeView>),
    Pods(Seq<K8sPodView>),
    Created(ServerView),
    Done,
    Failed,
}

impl View for Reply {
    type V = ReplyView;

    open spec fn view(&self) -> ReplyView {
        match *self {
            Reply::Jobs(jobs) => ReplyView::Jobs(views(jobs@)),
            Reply::Runners(runners) => ReplyView::Runners(views(runners@)),
            Reply::Servers(servers) => ReplyView::Servers(views(servers@)),
            Reply::Nodes(nodes) => ReplyView::Nodes(views(nodes@)),
            Reply::Pods(pods) => ReplyView::Pods(views(pods@)),
            Reply::Created(server) => ReplyView::Created(server@),
            Reply::Done => ReplyView::Done,
            Reply::Failed => ReplyView::Failed,
        }
    }
}

/// The times of creation are valid.
pub open spec fn servers_wf(servers: Seq<ServerView>) -> bool {
    forall|i: int| 0 <= i < servers.len() ==> (#[trigger] servers[i]).created.wf()
}

impl ReplyView {
    pub open spec fn wf(self) -> bool {
        match self {
            ReplyView::Servers(servers) => servers_wf(servers),
            ReplyView::Created(server) => server.created.wf(),
            _ => true,
        }
    }
}

/// The autoscaler: how it is configured, the nodes that it manages, which of their servers had
/// come up when they were last heard of, what it reports, and where the current iteration stands.
#[derive(Debug)]
pub struct Autoscaler {
    pub config: Config,
    pub manager: NodeManager,
    pub ready_servers: Vec<i64>,
    pub metrics: Metrics,
    pub stage: Stage,
}

pub struct AutoscalerView {
    pub config: ConfigView,
    pub manager: NodeManagerView,
    pub ready_servers: Seq<i64>,
    pub metrics: MetricsView,
    pub stage: StageView,
}

impl View for Autoscaler {
    type V = AutoscalerView;

    open spec fn view(&self) -> AutoscalerView {
        AutoscalerView {
            config: self.config@,
            manager: self.manager@,
            ready_servers: self.ready_servers@,
            metrics: self.metrics@,
            stage: self.stage@,
        }
    }
}

pub open spec fn seconds(secs: int) -> Duration {
    Duration { secs: secs as u64, nanos: 0 }
}

impl ConfigView {
    pub open spec fn provisioning_timeout(self) -> Duration {
        seconds(self.provisioning_timeout_secs)
    }

    pub open spec fn idle_timeout(self) -> Duration {
        seconds(self.idle_timeout_mins * 60)
    }
}

/// The server that an action is about.
pub open spec fn target() -> spec_fn(ReconcileAction) -> i64 {
    |a: ReconcileAction|
        match a {
            ReconcileAction::DeleteStuckServer { server_id } => server_id,
        }
}

/// The server of a node.
pub open spec fn server_of() -> spec_fn(NodeView) -> i64 {
    |n: NodeView| n.server_id
}

/// True if a server is known to have come up: it is remembered, or its node was more than
/// provisioning in the previous iteration.
pub open spec fn was_ready(previous: Seq<NodeView>, remembered: Seq<i64>, id: i64) -> bool {
    remembered.contains(id) || exists|i: int|
        0 <= i < previous.len() && (#[trigger] previous[i]).server_id == id && !(
        previous[i].state is Provisioning)
}

/// A node that is more than provisioning, or once was.
pub open spec fn is_ready(previous: Seq<NodeView>, remembered: Seq<i64>) -> spec_fn(
    NodeView,
) -> bool {
    |n: NodeView| !(n.state is Provisioning) || was_ready(previous, remembered, n.server_id)
}

/// A node that has never been ready in the time allowed.
pub open spec fn is_late(
    previous: Seq<NodeView>,
    remembered: Seq<i64>,
    now: Timestamp,
    timeout: Duration,
) -> spec_fn(NodeView) -> bool {
    |n: NodeView| !is_ready(previous, remembered)(n) && !younger_than(n, now, timeout)
}

/// A node that is ready, or once was, or still has time.
pub open spec fn is_in_time(
    previous: Seq<NodeView>,
    remembered: Seq<i64>,
    now: Timestamp,
    timeout: Duration,
) -> spec_fn(NodeView) -> bool {
    |n: NodeView| is_ready(previous, remembered)(n) || younger_than(n, now, timeout)
}

/// The nodes as the services report them, with what the previous iteration knew carried over.
pub open spec fn known_nodes(
    servers: Seq<ServerView>,
    seen: Observation,
    previous: Seq<NodeView>,
) -> Seq<NodeView> {
    with_readmitted(
        servers.filter_map(observed_node(seen)).map_values(carried_node(previous)),
        previous,
        seen.now,
        seen.timeout,
    )
}

/// The servers that no node is known of and that did not come up in the time allowed.
pub open spec fn unknown_servers(
    servers: Seq<ServerView>,
    seen: Observation,
    previous: Seq<NodeView>,
) -> Seq<i64> {
    let carried = servers.filter_map(observed_node(seen)).map_values(carried_node(previous));
    (servers.filter_map(stuck_action(seen)) + overdue(
        carried,
        previous,
        seen.now,
        seen.timeout,
    )).map_values(target())
}

/// What an iteration works out once it has heard from all services.
pub struct Plan {
    pub nodes: Vec<ManagedNode>,
    pub provisioned_in: Vec<i64>,
    pub stuck: Vec<i64>,
    pub ready: Vec<i64>,
}

pub struct PlanView {
    /// The managed nodes.
    pub nodes: Seq<NodeView>,
    /// How many seconds the nodes that came up took for it.
    pub provisioned_in: Seq<i64>,
    /// The servers to delete, each once.
    pub stuck: Seq<i64>,
    /// The servers that are known to have come up.
    pub ready: Seq<i64>,
}

impl View for Plan {
    type V = PlanView;

    open spec fn view(&self) -> PlanView {
        PlanView {
            nodes: views(self.nodes@),
            provisioned_in: self.provisioned_in@,
            stuck: self.stuck@,
            ready: self.ready@,
        }
    }
}

/// The plan: to go on with the nodes that are known, but for those that have not become ready in
/// the time allowed. The servers of these are deleted, like those that no node is known of.
pub open spec fn planned(
    servers: Seq<ServerView>,
    seen: Observation,
    previous: Seq<NodeView>,
    remembered: Seq<i64>,
) -> PlanView {
    let known = known_nodes(servers, seen, previous);
    let late = is_late(previous, remembered, seen.now, seen.timeout);
    PlanView {
        nodes: known.filter(is_in_time(previous, remembered, seen.now, seen.timeout)),
        provisioned_in: servers.filter_map(observed_node(seen)).filter_map(
            provisioned_in(previous, seen.now),
        ),
        stuck: distinct(
            unknown_servers(servers, seen, previous) + known.filter(late).map_values(server_of()),
        ),
        ready: known.filter(is_ready(previous, remembered)).map_values(server_of()),
    }
}

impl AutoscalerView {
    pub open spec fn nodes(self) -> Seq<NodeView> {
        self.manager.nodes
    }

    pub open spec fn with_nodes(self, nodes: Seq<NodeView>) -> AutoscalerView {
        AutoscalerView { manager: NodeManagerView { nodes, ..self.manager }, ..self }
    }

    pub open spec fn with_ready(self, ready_servers: Seq<i64>) -> AutoscalerView {
        AutoscalerView { ready_servers, ..self }
    }

    pub open spec fn with_metrics(self, metrics: MetricsView) -> AutoscalerView {
        AutoscalerView { metrics, ..self }
    }

    pub open spec fn at(self, stage: StageView) -> AutoscalerView {
        AutoscalerView { stage, ..self }
    }

    /// The end of an iteration that went through: the metrics describe the nodes.
    pub open spec fn completed(self, now: Timestamp) -> AutoscalerView {
        self.with_metrics(metrics_of_nodes(self.metrics, self.nodes(), now)).at(
            StageView::Finished { succeeded: true },
        )
    }

    /// Going on with the nodes that are leaving, if there are any.
    pub open spec fn continuing_teardown(self, now: Timestamp) -> AutoscalerView {
        let indices = indices_where(self.nodes(), is_in_teardown());
        if indices.len() == 0 {
            self.completed(now)
        } else {
            self.at(StageView::ContinueTeardown { now, indices })
        }
    }

    /// Going on with the idle nodes that are to leave, if there are any.
    pub open spec fn starting_teardown(self, now: Timestamp) -> AutoscalerView {
        let indices = indices_where(
            self.nodes(),
            is_teardown_candidate(
                now,
                self.config.idle_timeout(),
                self.config.billing_window_mins,
            ),
        );
        if indices.len() == 0 {
            self.continuing_teardown(now)
        } else {
            self.at(StageView::StartTeardown { now, indices })
        }
    }

    /// How many servers the waiting jobs need.
    pub open spec fn needed(self, waiting: int, runners: Seq<RunnerView>) -> int {
        let managed = self.nodes().filter_map(runner_name_of());
        scale_up_count(
            self.nodes(),
            waiting,
            runners.filter(has_permanent_capacity(managed)).len() as int,
            self.config.max_nodes,
        )
    }

    /// Going on with the servers that are needed, if there are any.
    pub open spec fn scaling_up(
        self,
        now: Timestamp,
        waiting: int,
        runners: Seq<RunnerView>,
    ) -> AutoscalerView {
        let count = self.needed(waiting, runners);
        let told = self.with_metrics(
            MetricsView { desired_nodes: (self.nodes().len() + count) as u64, ..self.metrics },
        );
        if count == 0 {
            told.starting_teardown(now)
        } else {
            told.at(StageView::CreateServers { now, count })
        }
    }

    /// Going on with the servers that did not come up, if there are any.
    pub open spec fn cleaning_up(
        self,
        now: Timestamp,
        waiting: int,
        runners: Seq<RunnerView>,
        server_ids: Seq<i64>,
    ) -> AutoscalerView {
        if server_ids.len() == 0 {
            self.scaling_up(now, waiting, runners)
        } else {
            self.at(StageView::DeleteStuckServers { now, waiting, runners, server_ids })
        }
    }

    /// What the services report, once the pods are known too.
    pub open spec fn observation(self, pods: Seq<K8sPodView>, now: Timestamp) -> Observation {
        match self.stage {
            StageView::ListPods { in_progress, runners, nodes, .. } => Observation {
                k8s_nodes: nodes,
                pods,
                runners,
                in_progress,
                now,
                timeout: self.config.provisioning_timeout(),
            },
            _ => Observation {
                k8s_nodes: Seq::empty(),
                pods,
                runners: Seq::empty(),
                in_progress: Seq::empty(),
                now,
                timeout: self.config.provisioning_timeout(),
            },
        }
    }

    /// The plan, once the pods are known too.
    pub open spec fn plan(self, pods: Seq<K8sPodView>, now: Timestamp) -> PlanView {
        match self.stage {
            StageView::ListPods { servers, .. } => planned(
                servers,
                self.observation(pods, now),
                self.nodes(),
                self.ready_servers,
            ),
            _ => planned(
                Seq::empty(),
                self.observation(pods, now),
                self.nodes(),
                self.ready_servers,
            ),
        }
    }

    /// The teardown call of the node at `index` has ended.
    pub open spec fn torn_down(self, index: int, succeeded: bool) -> AutoscalerView {
        self.with_metrics(
            metrics_after_teardown_call(self.metrics, self.nodes()[index].state, succeeded),
        ).with_nodes(nodes_after_teardown_call(self.nodes(), index, succeeded))
    }

    /// The call that comes next, if the iteration is not over. `id` is the random identifier
    /// that a new server would be named by.
    pub open spec fn request(self, id: Seq<char>) -> Option<RequestView> {
        match self.stage {
            StageView::ListWaitingJobs => Some(
                RequestView::ListJobs { status: JobStatus::Waiting },
            ),
            StageView::ListQueuedJobs { .. } => Some(
                RequestView::ListJobs { status: JobStatus::Queued },
            ),
            StageView::ListInProgressJobs { .. } => Some(
                RequestView::ListJobs { status: JobStatus::InProgress },
            ),
            StageView::ListRunners { .. } => Some(RequestView::ListRunners),
            StageView::ListServers { .. } => Some(
                RequestView::ListServers {
                    label_selector: selector(MANAGED_BY_LABEL@, MANAGED_BY_VALUE@),
                },
            ),
            StageView::ListNodes { .. } => Some(
                RequestView::ListNodes { label_selector: NODE_SELECTOR@ },
            ),
            StageView::ListPods { .. } => Some(
                RequestView::ListPods {
                    namespace: self.config.runner_namespace,
                    label_selector: RUNNER_POD_SELECTOR@,
                },
            ),
            StageView::DeleteStuckServers { server_ids, .. } => Some(
                RequestView::DeleteStuckServer { server_id: server_ids[0] },
            ),
            StageView::CreateServers { .. } => Some(
                RequestView::CreateServer {
                    name: "ci-runner-"@ + id.take(8),
                    cloud_init: cloud_config(
                        self.manager.master_ip,
                        self.config.cluster_secret,
                        self.manager.k3s_version,
                        self.config.k3s_agent_args,
                    ),
                },
            ),
            StageView::StartTeardown { indices, .. } => match next_teardown_call(
                self.nodes()[indices.last()],
            ) {
                Some(call) => Some(RequestView::Teardown(call)),
                None => None,
            },
            StageView::ContinueTeardown { indices, .. } => match next_teardown_call(
                self.nodes()[indices.last()],
            ) {
                Some(call) => Some(RequestView::Teardown(call)),
                None => None,
            },
            StageView::Finished { .. } => None,
        }
    }

    /// The autoscaler after the call has ended with `reply`; `now` is the current time.
    ///
    /// Where Gitea cannot be asked, the iteration ends without an error and without having done
    /// anything. Where another service cannot be asked, it ends with an error. Calls that change
    /// something may fail: the iteration goes on, and a later one tries again.
    pub open spec fn next(self, reply: ReplyView, now: Timestamp) -> AutoscalerView {
        match self.stage {
            StageView::ListWaitingJobs => match reply {
                ReplyView::Jobs(jobs) => self.at(
                    StageView::ListQueuedJobs { waiting: linux_count(jobs) as int },
                ),
                _ => self.at(StageView::Finished { succeeded: true }),
            },
            StageView::ListQueuedJobs { waiting } => match reply {
                ReplyView::Jobs(jobs) => self.at(
                    StageView::ListInProgressJobs { waiting: waiting + linux_count(jobs) },
                ),
                _ => self.at(StageView::Finished { succeeded: true }),
            },
            StageView::ListInProgressJobs { waiting } => match reply {
                ReplyView::Jobs(jobs) => self.at(
                    StageView::ListRunners { waiting, in_progress: jobs.filter(for_linux()) },
                ),
                _ => self.at(StageView::Finished { succeeded: true }),
            },
            StageView::ListRunners { waiting, in_progress } => match reply {
                ReplyView::Runners(runners) => self.with_metrics(
                    MetricsView {
                        linux_jobs_waiting: waiting as u64,
                        linux_jobs_running: in_progress.len() as u64,
                        ..self.metrics
                    },
                ).at(StageView::ListServers { waiting, in_progress, runners }),
                _ => self.at(StageView::Finished { succeeded: true }),
            },
            StageView::ListServers { waiting, in_progress, runners } => match reply {
                ReplyView::Servers(servers) => self.at(
                    StageView::ListNodes { waiting, in_progress, runners, servers },
                ),
                _ => self.at(StageView::Finished { succeeded: false }),
            },
            StageView::ListNodes { waiting, in_progress, runners, servers } => match reply {
                ReplyView::Nodes(nodes) => self.at(
                    StageView::ListPods { waiting, in_progress, runners, servers, nodes },
                ),
                _ => self.at(StageView::Finished { succeeded: false }),
            },
            StageView::ListPods { waiting, runners, .. } => match reply {
                ReplyView::Pods(pods) => {
                    let plan = self.plan(pods, now);
                    self.with_nodes(plan.nodes).with_ready(plan.ready).with_metrics(
                        MetricsView {
                            provisioning_duration: self.metrics.provisioning_duration
                                + plan.provisioned_in,
                            ..self.metrics
                        },
                    ).cleaning_up(now, waiting, runners, plan.stuck)
                },
                _ => self.at(StageView::Finished { succeeded: false }),
            },
            StageView::DeleteStuckServers { now, waiting, runners, server_ids } => {
                let after = if reply is Done {
                    self.with_nodes(
                        remove_first(self.nodes(), node_of_server(server_ids[0])),
                    ).with_metrics(self.metrics.server_deleted().scale_up_failed())
                } else {
                    self
                };
                after.cleaning_up(now, waiting, runners, server_ids.drop_first())
            },
            StageView::CreateServers { now, count } => {
                let after = match reply {
                    ReplyView::Created(server) => self.with_nodes(
                        self.nodes().push(
                            NodeView {
                                server_id: server.id,
                                server_name: server.name,
                                created_at: server.created,
                                state: NodeStateView::Provisioning,
                            },
                        ),
                    ).with_metrics(self.metrics.server_created()),
                    _ => self.with_metrics(self.metrics.scale_up_failed()),
                };
                if count == 1 {
                    after.starting_teardown(now)
                } else {
                    after.at(StageView::CreateServers { now, count: count - 1 })
                }
            },
            StageView::StartTeardown { now, indices } => {
                let after = self.torn_down(indices.last(), reply is Done);
                if indices.len() == 1 {
                    after.continuing_teardown(now)
                } else {
                    after.at(StageView::StartTeardown { now, indices: indices.drop_last() })
                }
            },
            StageView::ContinueTeardown { now, indices } => {
                let state = self.nodes()[indices.last()].state;
                let after = self.torn_down(indices.last(), reply is Done);
                if progress_after_teardown_call(state, reply is Done) is ServerLeft {
                    after
                } else if indices.len() == 1 {
                    after.completed(now)
                } else {
                    after.at(StageView::ContinueTeardown { now, indices: indices.drop_last() })
                }
            },
            StageView::Finished { .. } => self,
        }
    }

    /// The positions are ascending and each is that of a node that `p` holds of.
    pub open spec fn points_at(self, indices: Seq<int>, p: spec_fn(NodeView) -> bool) -> bool {
        &&& indices.len() > 0
        &&& forall|k: int|
            0 <= k < indices.len() ==> 0 <= #[trigger] indices[k] < self.nodes().len() && p(
                self.nodes()[indices[k]],
            )
        &&& forall|k: int, l: int|
            0 <= k < l < indices.len() ==> #[trigger] indices[k] < #[trigger] indices[l]
    }

    /// What holds at each stage.
    pub open spec fn stage_wf(self) -> bool {
        match self.stage {
            StageView::ListNodes { servers, .. } => servers_wf(servers),
            StageView::ListPods { servers, .. } => servers_wf(servers),
            StageView::DeleteStuckServers { now, server_ids, .. } => {
                &&& now.wf()
                &&& server_ids.len() > 0
                &&& server_ids.no_duplicates()
                &&& self.idle_timeout_fits()
            },
            StageView::CreateServers { now, count } => {
                &&& now.wf()
                &&& count > 0
                &&& self.nodes().len() + count <= self.config.max_nodes
                &&& self.idle_timeout_fits()
            },
            StageView::StartTeardown { now, indices } => {
                &&& now.wf()
                &&& self.points_at(
                    indices,
                    is_teardown_candidate(
                        now,
                        self.config.idle_timeout(),
                        self.config.billing_window_mins,
                    ),
                )
            },
            StageView::ContinueTeardown { now, indices } => {
                &&& now.wf()
                &&& self.points_at(indices, is_in_teardown())
            },
            _ => true,
        }
    }

    /// If there is an idle node, the idle timeout is one that a node's idle time can be held
    /// against.
    pub open spec fn idle_timeout_fits(self) -> bool {
        has_idle(self.nodes()) ==> self.config.idle_timeout().representable()
    }

    pub open spec fn wf(self) -> bool {
        &&& all_wf(self.nodes())
        &&& self.config.idle_timeout_mins * 60 <= u64::MAX
        &&& self.stage_wf()
    }

    /// A reply that the machine can go on with at a time: its times are valid, the number of
    /// waiting jobs can be counted, and the timeouts are ones that ages can be held against.
    pub open spec fn accepts(self, reply: ReplyView, now: Timestamp) -> bool {
        &&& reply.wf()
        &&& match self.stage {
            StageView::ListQueuedJobs { waiting } => reply matches ReplyView::Jobs(jobs)
                ==> waiting + linux_count(jobs) <= usize::MAX,
            StageView::ListPods { .. } => reply matches ReplyView::Pods(pods) ==> {
                &&& self.config.provisioning_timeout().representable()
                &&& self.with_nodes(self.plan(pods, now).nodes).idle_timeout_fits()
            },
            _ => true,
        }
    }
}

fn servers_to_delete(
    first: &Vec<ReconcileAction>,
    second: &Vec<ReconcileAction>,
    third: &Vec<i64>,
) -> (r: Vec<i64>)
    ensures
        r@ == distinct((first@ + second@).map_values(target()) + third@),
{
    let mut r: Vec<i64> = Vec::new();
    let ghost all = (first@ + second@).map_values(target()) + third@;
    let mut i: usize = 0;
    assert(all.take(0) =~= Seq::<i64>::empty());
    while i < first.len()
        invariant
            0 <= i <= first@.len(),
            all == (first@ + second@).map_values(target()) + third@,
            r@ == distinct(all.take(i as int)),
        decreases first@.len() - i,
    {
        proof {
            lemma_take_one_more(all, i as int);
        }
        match first[i] {
            ReconcileAction::DeleteStuckServer { server_id } => {
                assert(all[i as int] == server_id);
                push_new(&mut r, server_id);
            },
        }
        i = i + 1;
    }
    let mut j: usize = 0;
    while j < second.len()
        invariant
            0 <= j <= second@.len(),
            all == (first@ + second@).map_values(target()) + third@,
            r@ == distinct(all.take(first@.len() + j)),
        decreases second@.len() - j,
    {
        proof {
            lemma_take_one_more(all, first@.len() + j);
        }
        match second[j] {
            ReconcileAction::DeleteStuckServer { server_id } => {
                assert(all[first@.len() + j] == server_id);
                push_new(&mut r, server_id);
            },
        }
        j = j + 1;
    }
    let mut k: usize = 0;
    while k < third.len()
        invariant
            0 <= k <= third@.len(),
            all == (first@ + second@).map_values(target()) + third@,
            r@ == distinct(all.take(first@.len() + second@.len() + k)),
        decreases third@.len() - k,
    {
        proof {
            lemma_take_one_more(all, first@.len() + second@.len() + k);
        }
        push_new(&mut r, third[k]);
        k = k + 1;
    }
    assert(all.take(first@.len() + second@.len() + k) =~= all);
    r
}

fn any_idle(nodes: &Vec<ManagedNode>) -> (r: bool)
    ensures
        r == has_idle(views(nodes@)),
{
    let mut i: usize = 0;
    while i < nodes.len()
        invariant
            0 <= i <= nodes@.len(),
            forall|j: int| 0 <= j < i ==> !((#[trigger] views(nodes@)[j]).state is Idle),
        decreases nodes@.len() - i,
    {
        assert(views(nodes@)[i as int] == nodes@[i as int]@);
        if matches!(nodes[i].state, NodeState::Idle { .. }) {
            return true;
        }
        i = i + 1;
    }
    false
}

fn all_valid(servers: &Vec<HetznerServer>) -> (r: bool)
    ensures
        r == servers_wf(views(servers@)),
{
    let mut i: usize = 0;
    while i < servers.len()
        invariant
            0 <= i <= servers@.len(),
            forall|j: int| 0 <= j < i ==> (#[trigger] views(servers@)[j]).created.wf(),
        decreases servers@.len() - i,
    {
        assert(views(servers@)[i as int] == servers@[i as int]@);
        if !servers[i].created.is_valid() {
            return false;
        }
        i = i + 1;
    }
    true
}

impl Reply {
    /// True if the times of creation in it are valid.
    fn is_valid(&self) -> (r: bool)
        ensures
            r == self@.wf(),
    {
        match self {
            Reply::Servers(servers) => all_valid(servers),
            Reply::Created(server) => server.created.is_valid(),
            _ => true,
        }
    }
}

fn server_was_ready(previous: &[ManagedNode], remembered: &Vec<i64>, id: i64) -> (r: bool)
    ensures
        r == was_ready(views(previous@), remembered@, id),
{
    let mut i: usize = 0;
    while i < remembered.len()
        invariant
            0 <= i <= remembered@.len(),
            forall|j: int| 0 <= j < i ==> #[trigger] remembered@[j] != id,
        decreases remembered@.len() - i,
    {
        if remembered[i] == id {
            return true;
        }
        i = i + 1;
    }
    let mut k: usize = 0;
    while k < previous.len()
        invariant
            0 <= k <= previous@.len(),
            forall|j: int|
                0 <= j < k && (#[trigger] views(previous@)[j]).server_id == id ==> views(
                    previous@,
                )[j].state is Provisioning,
        decreases previous@.len() - k,
    {
        assert(views(previous@)[k as int] == previous@[k as int]@);
        let provisioning = matches!(previous[k].state, NodeState::Provisioning);
        if previous[k].hetzner_server_id == id && !provisioning {
            return true;
        }
        k = k + 1;
    }
    false
}

/// Part the nodes that are in time from those that are late, and name the servers of the late
/// ones and of those that are ready.
fn part_nodes(
    nodes: Vec<ManagedNode>,
    previous: &[ManagedNode],
    remembered: &Vec<i64>,
    now: Timestamp,
    timeout: Duration,
) -> (r: (Vec<ManagedNode>, Vec<i64>, Vec<i64>))
    requires
        all_wf(views(nodes@)),
        now.wf(),
        timeout.wf(),
        timeout.representable(),
    ensures
        views(r.0@) == views(nodes@).filter(
            is_in_time(views(previous@), remembered@, now, timeout),
        ),
        r.1@ == views(nodes@).filter(
            is_late(views(previous@), remembered@, now, timeout),
        ).map_values(server_of()),
        r.2@ == views(nodes@).filter(is_ready(views(previous@), remembered@)).map_values(
            server_of(),
        ),
        all_wf(views(r.0@)),
{
    let ghost all = views(nodes@);
    let ghost items = nodes@;
    let ghost in_time = is_in_time(views(previous@), remembered@, now, timeout);
    let ghost late = is_late(views(previous@), remembered@, now, timeout);
    let ghost ready = is_ready(views(previous@), remembered@);
    let mut kept: Vec<ManagedNode> = Vec::new();
    let mut late_servers: Vec<i64> = Vec::new();
    let mut ready_servers: Vec<i64> = Vec::new();
    proof {
        reveal(Seq::filter);
        assert(views(kept@) =~= all.take(0).filter(in_time));
        assert(late_servers@ =~= all.take(0).filter(late).map_values(server_of()));
        assert(ready_servers@ =~= all.take(0).filter(ready).map_values(server_of()));
    }
    for node in it: nodes
        invariant
            it.seq() == items,
            all == views(items),
            all_wf(all),
            now.wf(),
            timeout.wf(),
            timeout.representable(),
            in_time == is_in_time(views(previous@), remembered@, now, timeout),
            late == is_late(views(previous@), remembered@, now, timeout),
            ready == is_ready(views(previous@), remembered@),
            all_wf(views(kept@)),
            views(kept@) == all.take(it.index() as int).filter(in_time),
            late_servers@ == all.take(it.index() as int).filter(late).map_values(server_of()),
            ready_servers@ == all.take(it.index() as int).filter(ready).map_values(server_of()),
    {
        let ghost i = it.index() as int;
        assert(all[i] == node@);
        assert(all[i].wf());
        proof {
            lemma_filter_take(all, in_time, i);
            lemma_filter_take(all, late, i);
            lemma_filter_take(all, ready, i);
            lemma_map_push(all.take(i).filter(late), all[i], server_of());
            lemma_map_push(all.take(i).filter(ready), all[i], server_of());
            lemma_views_push(kept@, node);
        }
        let id: i64 = node.hetzner_server_id;
        let is_ready = !matches!(node.state, NodeState::Provisioning) || server_was_ready(
            previous,
            remembered,
            id,
        );
        if is_ready {
            ready_servers.push(id);
        }
        let age: Span = now.since(node.created_at);
        let old_enough = match timeout.to_span() {
            Some(limit) => age.at_least(limit),
            None => false,
        };
        if !is_ready && old_enough {
            late_servers.push(id);
        } else {
            kept.push(node);
        }
    }
    assert(all.take(all.len() as int) =~= all);
    (kept, late_servers, ready_servers)
}

proof fn lemma_map_push<T, U>(s: Seq<T>, t: T, f: spec_fn(T) -> U)
    ensures
        s.push(t).map_values(f) == s.map_values(f).push(f(t)),
{
    assert(s.push(t).map_values(f) =~= s.map_values(f).push(f(t)));
}

fn push_new(ids: &mut Vec<i64>, id: i64)
    ensures
        final(ids)@ == if old(ids)@.contains(id) {
            old(ids)@
        } else {
            old(ids)@.push(id)
        },
{
    let mut i: usize = 0;
    let mut found = false;
    while i < ids.len()
        invariant
            0 <= i <= ids@.len(),
            ids@ == old(ids)@,
            found == exists|j: int| 0 <= j < i && #[trigger] ids@[j] == id,
        decreases ids@.len() - i,
    {
        if ids[i] == id {
            found = true;
        }
        i = i + 1;
    }
    if !found {
        ids.push(id);
    }
}

impl Autoscaler {
    pub open spec fn wf(self) -> bool {
        self@.wf() && self.metrics.wf()
    }

    /// An autoscaler between two iterations.
    pub fn new(config: Config, manager: NodeManager, metrics: Metrics) -> (r: Autoscaler)
        requires
            manager.wf(),
            metrics.wf(),
            config.idle_timeout_mins * 60 <= u64::MAX,
        ensures
            r.wf(),
            r@ == (AutoscalerView {
                config: config@,
                manager: manager@,
                ready_servers: Seq::empty(),
                metrics: metrics@,
                stage: StageView::Finished { succeeded: true },
            }),
    {
        Autoscaler {
            config,
            manager,
            ready_servers: Vec::new(),
            metrics,
            stage: Stage::Finished { succeeded: true },
        }
    }

    /// Start an iteration.
    pub fn begin(&mut self)
        requires
            old(self).wf(),
        ensures
            final(self).wf(),
            final(self)@ == old(self)@.at(StageView::ListWaitingJobs),
    {
        self.stage = Stage::ListWaitingJobs;
    }

    /// The call that comes next, if the iteration is not over. A new server is named by `id`.
    pub fn request_with(&self, id: &str) -> (r: Option<Request>)
        requires
            self.wf(),
            id@.len() >= 8,
        ensures
            match r {
                Some(request) => self@.request(id@) == Some(request@),
                None => self@.request(id@) is None,
            },
            r is None <==> self.stage is Finished,
    {
        match &self.stage {
            Stage::ListWaitingJobs => Some(Request::ListJobs { status: JobStatus::Waiting }),
            Stage::ListQueuedJobs { .. } => Some(Request::ListJobs { status: JobStatus::Queued }),
            Stage::ListInProgressJobs { .. } => Some(
                Request::ListJobs { status: JobStatus::InProgress },
            ),
            Stage::ListRunners { .. } => Some(Request::ListRunners),
            Stage::ListServers { .. } => Some(
                Request::ListServers { label_selector: managed_selector() },
            ),
            Stage::ListNodes { .. } => Some(
                Request::ListNodes { label_selector: NODE_SELECTOR.to_owned() },
            ),
            Stage::ListPods { .. } => Some(
                Request::ListPods {
                    namespace: self.config.runner_namespace.clone(),
                    label_selector: RUNNER_POD_SELECTOR.to_owned(),
                },
            ),
            Stage::DeleteStuckServers { server_ids, .. } => Some(
                Request::DeleteStuckServer { server_id: server_ids[0] },
            ),
            Stage::CreateServers { .. } => Some(
                Request::CreateServer {
                    name: server_name(id),
                    cloud_init: render_with_args(
                        self.manager.master_ip.as_str(),
                        self.config.cluster_secret.as_str(),
                        self.manager.k3s_version.as_str(),
                        self.config.k3s_agent_args.as_str(),
                    ),
                },
            ),
            Stage::StartTeardown { indices, .. } => {
                let index: usize = indices[indices.len() - 1];
                assert(index == self@.stage->StartTeardown_indices.last());
                match self.manager.teardown_call(index) {
                    Some(call) => Some(Request::Teardown(call)),
                    None => None,
                }
            },
            Stage::ContinueTeardown { indices, .. } => {
                let index: usize = indices[indices.len() - 1];
                assert(index == self@.stage->ContinueTeardown_indices.last());
                match self.manager.teardown_call(index) {
                    Some(call) => Some(Request::Teardown(call)),
                    None => None,
                }
            },
            Stage::Finished { .. } => None,
        }
    }

    /// The call that comes next, if the iteration is not over. A new server gets a random name.
    pub fn request(&self) -> (r: Option<Request>)
        requires
            self.wf(),
        ensures
            exists|id: Seq<char>|
                is_uuid_v4_text(id) && match r {
                    Some(request) => #[trigger] self@.request(id) == Some(request@),
                    None => self@.request(id) is None,
                },
            r is None <==> self.stage is Finished,
    {
        let id = new_uuid_text();
        self.request_with(id.as_str())
    }

    fn complete(&mut self, now: Timestamp)
        requires
            all_wf(old(self)@.nodes()),
            old(self).metrics.wf(),
            old(self)@.config.idle_timeout_mins * 60 <= u64::MAX,
            now.wf(),
        ensures
            final(self).wf(),
            final(self)@ == old(self)@.completed(now),
    {
        self.manager.update_metrics(&mut self.metrics, now);
        self.stage = Stage::Finished { succeeded: true };
    }

    fn continue_teardown(&mut self, now: Timestamp)
        requires
            all_wf(old(self)@.nodes()),
            old(self).metrics.wf(),
            old(self)@.config.idle_timeout_mins * 60 <= u64::MAX,
            now.wf(),
        ensures
            final(self).wf(),
            final(self)@ == old(self)@.continuing_teardown(now),
    {
        let indices = self.manager.nodes_in_teardown();
        proof {
            indices_where_is_exact(self@.nodes(), is_in_teardown());
            assert(ints(indices@).len() == indices@.len());
        }
        if indices.len() == 0 {
            self.complete(now);
        } else {
            self.stage = Stage::ContinueTeardown { now, indices };
        }
    }

    fn start_teardown(&mut self, now: Timestamp)
        requires
            all_wf(old(self)@.nodes()),
            old(self).metrics.wf(),
            old(self)@.config.idle_timeout_mins * 60 <= u64::MAX,
            now.wf(),
            old(self)@.idle_timeout_fits(),
        ensures
            final(self).wf(),
            final(self)@ == old(self)@.starting_teardown(now),
    {
        let idle_timeout = Duration::from_secs(self.config.idle_timeout_mins * 60);
        assert(idle_timeout == self@.config.idle_timeout());
        let indices = self.manager.find_teardown_candidates(
            now,
            idle_timeout,
            self.config.billing_window_mins,
        );
        proof {
            indices_where_is_exact(
                self@.nodes(),
                is_teardown_candidate(
                    now,
                    self@.config.idle_timeout(),
                    self@.config.billing_window_mins,
                ),
            );
            assert(ints(indices@).len() == indices@.len());
        }
        if indices.len() == 0 {
            self.continue_teardown(now);
        } else {
            self.stage = Stage::StartTeardown { now, indices };
        }
    }

    fn scale_up(&mut self, now: Timestamp, waiting: usize, runners: &Vec<Runner>)
        requires
            all_wf(old(self)@.nodes()),
            old(self).metrics.wf(),
            old(self)@.config.idle_timeout_mins * 60 <= u64::MAX,
            now.wf(),
            old(self)@.idle_timeout_fits(),
        ensures
            final(self).wf(),
            final(self)@ == old(self)@.scaling_up(now, waiting as int, views(runners@)),
    {
        let managed = self.manager.managed_runner_names();
        let capacity: usize = permanent_runner_capacity(runners.as_slice(), managed.as_slice());
        let count: usize = self.manager.compute_scale_up(waiting, capacity, self.config.max_nodes);
        assert(count == self@.needed(waiting as int, views(runners@)));
        self.metrics.desired_nodes = (self.manager.nodes.len() + count) as u64;
        if count == 0 {
            self.start_teardown(now);
        } else {
            self.stage = Stage::CreateServers { now, count };
        }
    }

    fn clean_up(
        &mut self,
        now: Timestamp,
        waiting: usize,
        runners: Vec<Runner>,
        server_ids: Vec<i64>,
    )
        requires
            all_wf(old(self)@.nodes()),
            old(self).metrics.wf(),
            old(self)@.config.idle_timeout_mins * 60 <= u64::MAX,
            now.wf(),
            old(self)@.idle_timeout_fits(),
            server_ids@.no_duplicates(),
        ensures
            final(self).wf(),
            final(self)@ == old(self)@.cleaning_up(
                now,
                waiting as int,
                views(runners@),
                server_ids@,
            ),
    {
        if server_ids.len() == 0 {
            self.scale_up(now, waiting, &runners);
        } else {
            self.stage = Stage::DeleteStuckServers { now, waiting, runners, server_ids };
        }
    }

    /// Take in that the first of the stuck servers was deleted, or was not.
    fn stuck_server_handled(
        &mut self,
        now: Timestamp,
        waiting: usize,
        runners: Vec<Runner>,
        server_ids: Vec<i64>,
        deleted: bool,
    )
        requires
            all_wf(old(self)@.nodes()),
            old(self).metrics.wf(),
            old(self)@.config.idle_timeout_mins * 60 <= u64::MAX,
            now.wf(),
            old(self)@.idle_timeout_fits(),
            server_ids@.len() > 0,
            server_ids@.no_duplicates(),
        ensures
            final(self).wf(),
            final(self)@ == ({
                let after = if deleted {
                    old(self)@.with_nodes(
                        remove_first(old(self)@.nodes(), node_of_server(server_ids@[0])),
                    ).with_metrics(old(self)@.metrics.server_deleted().scale_up_failed())
                } else {
                    old(self)@
                };
                after.cleaning_up(now, waiting as int, views(runners@), server_ids@.drop_first())
            }),
    {
        let mut server_ids = server_ids;
        let ghost ids = server_ids@;
        let server_id: i64 = server_ids.remove(0);
        assert(server_ids@ =~= ids.drop_first());
        self.manager.delete_stuck_server(server_id, deleted, &mut self.metrics);
        proof {
            let p = node_of_server(server_id);
            let before = old(self)@.nodes();
            lemma_remove_first_elements(before, p);
            if has_idle(self@.nodes()) {
                let k = choose|k: int|
                    0 <= k < self@.nodes().len() && (#[trigger] self@.nodes()[k]).state is Idle;
                assert(before.contains(self@.nodes()[k]));
                let m = choose|m: int| 0 <= m < before.len() && before[m] == self@.nodes()[k];
                assert(before[m].state is Idle);
            }
        }
        self.clean_up(now, waiting, runners, server_ids);
    }

    /// Take in the server that was created, or that none was.
    fn creation_handled(&mut self, now: Timestamp, count: usize, created: Option<HetznerServer>)
        requires
            all_wf(old(self)@.nodes()),
            old(self).metrics.wf(),
            old(self)@.config.idle_timeout_mins * 60 <= u64::MAX,
            now.wf(),
            old(self)@.idle_timeout_fits(),
            count > 0,
            old(self)@.nodes().len() + count <= old(self)@.config.max_nodes,
            created matches Some(server) ==> server.created.wf(),
        ensures
            final(self).wf(),
            final(self)@ == ({
                let after = match created {
                    Some(server) => old(self)@.with_nodes(
                        old(self)@.nodes().push(
                            NodeView {
                                server_id: server.id,
                                server_name: server.name@,
                                created_at: server.created,
                                state: NodeStateView::Provisioning,
                            },
                        ),
                    ).with_metrics(old(self)@.metrics.server_created()),
                    None => old(self)@.with_metrics(old(self)@.metrics.scale_up_failed()),
                };
                if count == 1 {
                    after.starting_teardown(now)
                } else {
                    after.at(StageView::CreateServers { now, count: count - 1 })
                }
            }),
    {
        self.manager.scale_up(created, &mut self.metrics);
        proof {
            let before = old(self)@.nodes();
            if has_idle(self@.nodes()) {
                let k = choose|k: int|
                    0 <= k < self@.nodes().len() && (#[trigger] self@.nodes()[k]).state is Idle;
                assert(before[k].state is Idle);
            }
        }
        if count == 1 {
            self.start_teardown(now);
        } else {
            self.stage = Stage::CreateServers { now, count: count - 1 };
        }
    }

    /// Take in how the call ended that makes an idle node leave.
    fn teardown_started(&mut self, now: Timestamp, indices: Vec<usize>, succeeded: bool)
        requires
            all_wf(old(self)@.nodes()),
            old(self).metrics.wf(),
            old(self)@.config.idle_timeout_mins * 60 <= u64::MAX,
            now.wf(),
            old(self)@.points_at(
                ints(indices@),
                is_teardown_candidate(
                    now,
                    old(self)@.config.idle_timeout(),
                    old(self)@.config.billing_window_mins,
                ),
            ),
        ensures
            final(self).wf(),
            final(self)@ == ({
                let after = old(self)@.torn_down(ints(indices@).last(), succeeded);
                if indices@.len() == 1 {
                    after.continuing_teardown(now)
                } else {
                    after.at(
                        StageView::StartTeardown { now, indices: ints(indices@).drop_last() },
                    )
                }
            }),
    {
        let mut indices = indices;
        let ghost all = ints(indices@);
        assert(all.len() > 0);
        assert(indices@.len() == all.len());
        let index: usize = indices[indices.len() - 1];
        assert(index == all.last());
        indices.truncate(indices.len() - 1);
        assert(ints(indices@) =~= all.drop_last());
        self.manager.teardown_step(index, succeeded, &mut self.metrics);
        if indices.len() == 0 {
            self.continue_teardown(now);
        } else {
            proof {
                lemma_earlier_nodes_stay(old(self)@, all, succeeded);
            }
            self.stage = Stage::StartTeardown { now, indices };
        }
    }

    /// Take in how the call ended that takes a leaving node further.
    fn teardown_continued(&mut self, now: Timestamp, indices: Vec<usize>, succeeded: bool)
        requires
            all_wf(old(self)@.nodes()),
            old(self).metrics.wf(),
            old(self)@.config.idle_timeout_mins * 60 <= u64::MAX,
            now.wf(),
            old(self)@.points_at(ints(indices@), is_in_teardown()),
        ensures
            final(self).wf(),
            final(self)@ == ({
                let state = old(self)@.nodes()[ints(indices@).last()].state;
                let after = old(self)@.torn_down(ints(indices@).last(), succeeded);
                if progress_after_teardown_call(state, succeeded) is ServerLeft {
                    after.at(StageView::ContinueTeardown { now, indices: ints(indices@) })
                } else if indices@.len() == 1 {
                    after.completed(now)
                } else {
                    after.at(
                        StageView::ContinueTeardown { now, indices: ints(indices@).drop_last() },
                    )
                }
            }),
    {
        let mut indices = indices;
        let ghost all = ints(indices@);
        assert(indices@.len() == all.len());
        let index: usize = indices[indices.len() - 1];
        assert(index == all.last());
        let progress = self.manager.teardown_step(index, succeeded, &mut self.metrics);
        proof {
            lemma_earlier_nodes_stay(old(self)@, all, succeeded);
        }
        match progress {
            TeardownProgress::ServerLeft => {
                assert forall|k: int| 0 <= k < all.len() implies 0 <= #[trigger] all[k]
                    < self@.nodes().len() && is_in_teardown()(self@.nodes()[all[k]]) by {
                    if k < all.len() - 1 {
                        assert(all.drop_last()[k] == all[k]);
                    }
                }
                self.stage = Stage::ContinueTeardown { now, indices };
            },
            TeardownProgress::Finished { .. } => {
                indices.truncate(indices.len() - 1);
                assert(ints(indices@) =~= all.drop_last());
                if indices.len() == 0 {
                    self.complete(now);
                } else {
                    self.stage = Stage::ContinueTeardown { now, indices };
                }
            },
        }
    }

    /// Work out the plan from what the services reported.
    fn work_out(
        &self,
        now: Timestamp,
        in_progress: &Vec<Job>,
        runners: &Vec<Runner>,
        servers: &Vec<HetznerServer>,
        nodes: &Vec<K8sNode>,
        pods: &Vec<K8sPod>,
    ) -> (r: Plan)
        requires
            all_wf(self@.nodes()),
            now.wf(),
            servers_wf(views(servers@)),
            self@.config.provisioning_timeout().representable(),
        ensures
            r@ == planned(
                views(servers@),
                (Observation {
                    k8s_nodes: views(nodes@),
                    pods: views(pods@),
                    runners: views(runners@),
                    in_progress: views(in_progress@),
                    now,
                    timeout: self@.config.provisioning_timeout(),
                }),
                self@.nodes(),
                self@.ready_servers,
            ),
            all_wf(r@.nodes),
            r@.stuck.no_duplicates(),
    {
        let timeout = Duration::from_secs(self.config.provisioning_timeout_secs);
        assert(timeout == self@.config.provisioning_timeout());
        let (mut known, absent) = reconcile(
            servers.as_slice(),
            nodes.as_slice(),
            pods.as_slice(),
            runners.as_slice(),
            in_progress.as_slice(),
            now,
            timeout,
        );
        let (provisioned_in, expired) = carry_forward_state(
            &mut known,
            self.manager.nodes.as_slice(),
            now,
            timeout,
        );
        let (nodes, late, ready) = part_nodes(
            known,
            self.manager.nodes.as_slice(),
            &self.ready_servers,
            now,
            timeout,
        );
        let stuck = servers_to_delete(&absent, &expired, &late);
        proof {
            distinct_is_exact((absent@ + expired@).map_values(target()) + late@);
        }
        Plan { nodes, provisioned_in, stuck, ready }
    }

    /// Go on with a plan.
    fn follow(&mut self, plan: Plan, now: Timestamp, waiting: usize, runners: Vec<Runner>)
        requires
            old(self).metrics.wf(),
            old(self)@.config.idle_timeout_mins * 60 <= u64::MAX,
            now.wf(),
            all_wf(plan@.nodes),
            plan@.stuck.no_duplicates(),
            old(self)@.with_nodes(plan@.nodes).idle_timeout_fits(),
        ensures
            final(self).wf(),
            final(self)@ == old(self)@.with_nodes(plan@.nodes).with_ready(plan@.ready).with_metrics(
                (MetricsView {
                    provisioning_duration: old(self)@.metrics.provisioning_duration
                        + plan@.provisioned_in,
                    ..old(self)@.metrics
                }),
            ).cleaning_up(now, waiting as int, views(runners@), plan@.stuck),
    {
        let mut plan = plan;
        self.metrics.provisioning_duration.append(&mut plan.provisioned_in);
        self.manager.nodes = plan.nodes;
        self.ready_servers = plan.ready;
        self.clean_up(now, waiting, runners, plan.stuck);
    }

    /// True if the machine can go on with a reply at the time `now`.
    pub fn can_advance(&self, reply: &Reply, now: Timestamp) -> (r: bool)
        requires
            self.wf(),
            now.wf(),
        ensures
            r == self@.accepts(reply@, now),
    {
        if !reply.is_valid() {
            return false;
        }
        match (&self.stage, reply) {
            (Stage::ListQueuedJobs { waiting }, Reply::Jobs(jobs)) => {
                let queued: usize = filter_linux_jobs(jobs.as_slice()).len();
                queued <= usize::MAX - *waiting
            },
            (
                Stage::ListPods { in_progress, runners, servers, nodes, .. },
                Reply::Pods(pods),
            ) => {
                let provisioning = Duration::from_secs(self.config.provisioning_timeout_secs);
                let idle = Duration::from_secs(self.config.idle_timeout_mins * 60);
                assert(provisioning == self@.config.provisioning_timeout());
                assert(idle == self@.config.idle_timeout());
                if provisioning.to_span().is_none() {
                    return false;
                }
                if idle.to_span().is_some() {
                    return true;
                }
                let plan = self.work_out(now, in_progress, runners, servers, nodes, pods);
                !any_idle(&plan.nodes)
            },
            _ => true,
        }
    }

    /// Take in how the call ended, at the time `now`.
    pub fn advance_at(&mut self, reply: Reply, now: Timestamp)
        requires
            old(self).wf(),
            now.wf(),
            old(self)@.accepts(reply@, now),
        ensures
            final(self).wf(),
            final(self)@ == old(self)@.next(reply@, now),
    {
        let mut stage = Stage::Finished { succeeded: true };
        std::mem::swap(&mut stage, &mut self.stage);
        match stage {
            Stage::ListWaitingJobs => match reply {
                Reply::Jobs(jobs) => {
                    let waiting: usize = filter_linux_jobs(jobs.as_slice()).len();
                    self.stage = Stage::ListQueuedJobs { waiting };
                },
                _ => {},
            },
            Stage::ListQueuedJobs { waiting } => match reply {
                Reply::Jobs(jobs) => {
                    let queued: usize = filter_linux_jobs(jobs.as_slice()).len();
                    self.stage = Stage::ListInProgressJobs { waiting: waiting + queued };
                },
                _ => {},
            },
            Stage::ListInProgressJobs { waiting } => match reply {
                Reply::Jobs(jobs) => {
                    let in_progress = retain_linux_jobs(jobs);
                    self.stage = Stage::ListRunners { waiting, in_progress };
                },
                _ => {},
            },
            Stage::ListRunners { waiting, in_progress } => match reply {
                Reply::Runners(runners) => {
                    self.metrics.linux_jobs_waiting = waiting as u64;
                    self.metrics.linux_jobs_running = in_progress.len() as u64;
                    self.stage = Stage::ListServers { waiting, in_progress, runners };
                },
                _ => {},
            },
            Stage::ListServers { waiting, in_progress, runners } => match reply {
                Reply::Servers(servers) => {
                    self.stage = Stage::ListNodes { waiting, in_progress, runners, servers };
                },
                _ => {
                    self.stage = Stage::Finished { succeeded: false };
                },
            },
            Stage::ListNodes { waiting, in_progress, runners, servers } => match reply {
                Reply::Nodes(nodes) => {
                    self.stage =
                    Stage::ListPods { waiting, in_progress, runners, servers, nodes };
                },
                _ => {
                    self.stage = Stage::Finished { succeeded: false };
                },
            },
            Stage::ListPods { waiting, in_progress, runners, servers, nodes } => match reply {
                Reply::Pods(pods) => {
                    let plan = self.work_out(
                        now,
                        &in_progress,
                        &runners,
                        &servers,
                        &nodes,
                        &pods,
                    );
                    self.follow(plan, now, waiting, runners);
                },
                _ => {
                    self.stage = Stage::Finished { succeeded: false };
                },
            },
            Stage::DeleteStuckServers { now, waiting, runners, server_ids } => {
                let deleted = matches!(reply, Reply::Done);
                self.stuck_server_handled(now, waiting, runners, server_ids, deleted);
            },
            Stage::CreateServers { now, count } => {
                let created = match reply {
                    Reply::Created(server) => Some(server),
                    _ => None,
                };
                self.creation_handled(now, count, created);
            },
            Stage::StartTeardown { now, indices } => {
                let succeeded = matches!(reply, Reply::Done);
                self.teardown_started(now, indices, succeeded);
            },
            Stage::ContinueTeardown { now, indices } => {
                let succeeded = matches!(reply, Reply::Done);
                self.teardown_continued(now, indices, succeeded);
            },
            Stage::Finished { succeeded } => {
                self.stage = Stage::Finished { succeeded };
            },
        }
    }

    /// Take in how the call ended, now.
    pub fn advance(&mut self, reply: Reply)
        requires
            old(self).wf(),
            forall|now: Timestamp| now.wf() ==> #[trigger] old(self)@.accepts(reply@, now),
        ensures
            final(self).wf(),
            exists|now: Timestamp|
                now.wf() && final(self)@ == #[trigger] old(self)@.next(reply@, now),
    {
        let now = Timestamp::now();
        assert(old(self)@.accepts(reply@, now));
        self.advance_at(reply, now);
    }
}

/// A teardown call changes neither the nodes at the earlier positions nor their positions.
pub(crate) proof fn lemma_earlier_nodes_stay(a: AutoscalerView, indices: Seq<int>, succeeded: bool)
    requires
        indices.len() > 0,
        forall|k: int|
            0 <= k < indices.len() ==> 0 <= #[trigger] indices[k] < a.nodes().len(),
        forall|k: int, l: int|
            0 <= k < l < indices.len() ==> #[trigger] indices[k] < #[trigger] indices[l],
    ensures
        forall|k: int|
            0 <= k < indices.len() - 1 ==> 0 <= #[trigger] indices.drop_last()[k]
                < nodes_after_teardown_call(a.nodes(), indices.last(), succeeded).len()
                && nodes_after_teardown_call(
                a.nodes(),
                indices.last(),
                succeeded,
            )[indices.drop_last()[k]] == a.nodes()[indices[k]],
{
    assert forall|k: int| 0 <= k < indices.len() - 1 implies 0 <= #[trigger] indices.drop_last()[k]
        < nodes_after_teardown_call(a.nodes(), indices.last(), succeeded).len()
        && nodes_after_teardown_call(
        a.nodes(),
        indices.last(),
        succeeded,
    )[indices.drop_last()[k]] == a.nodes()[indices[k]] by {
        assert(indices[k] < indices[indices.len() - 1]);
    }
}

/// How many iterations in a row have failed, after one more.
pub fn failures_in_a_row(before: u64, succeeded: bool) -> (r: u64)
    requires
        !succeeded ==> before < u64::MAX,
    ensures
        r == if succeeded {
            0
        } else {
            before + 1
        },
{
    if succeeded {
        0
    } else {
        before + 1
    }
}

} // verus!
