//! The managed nodes and the rules by which their number grows and shrinks.

use vstd::prelude::*;

use crate::gitea::{Runner, RunnerView};
use crate::hetzner::HetznerServer;
use crate::metrics::{state_counts, Metrics, MetricsView};
use crate::reconcile::node_of_server;
use crate::seqs::{
    indices_where, ints, lemma_filter_map_take, lemma_filter_take, lemma_remove_first_at,
    lemma_remove_first_none, lemma_take_one_more, lemma_views_push, remove_first, views,
};
use crate::text::{contains_text, same_text};
use crate::time::{
    elapsed_mins, elapsed_nanos, elapsed_secs, trunc_rem, uncounted_leap_seconds, Duration, Span,
    Timestamp, MAX_UNIX_SECS,
};

verus! {

/// Where a managed node stands in its life.
#[derive(Debug, PartialEq)]
pub enum NodeState {
    Provisioning,
    Busy { k8s_node_name: String, gitea_runner_id: u64, gitea_runner_name: String },
    Idle {
        k8s_node_name: String,
        gitea_runner_id: u64,
        gitea_runner_name: String,
        idle_since: Timestamp,
    },
    Deregistering { k8s_node_name: String, gitea_runner_id: u64 },
    Draining { k8s_node_name: String },
    Removing,
}

/// A server that the autoscaler made, and the state of its node.
#[derive(Debug)]
pub struct ManagedNode {
    pub hetzner_server_id: i64,
    pub hetzner_server_name: String,
    pub created_at: Timestamp,
    pub state: NodeState,
}

pub enum NodeStateView {
    Provisioning,
    Busy { k8s_node_name: Seq<char>, gitea_runner_id: u64, gitea_runner_name: Seq<char> },
    Idle {
        k8s_node_name: Seq<char>,
        gitea_runner_id: u64,
        gitea_runner_name: Seq<char>,
        idle_since: Timestamp,
    },
    Deregistering { k8s_node_name: Seq<char>, gitea_runner_id: u64 },
    Draining { k8s_node_name: Seq<char> },
    Removing,
}

pub struct NodeView {
    pub server_id: i64,
    pub server_name: Seq<char>,
    pub created_at: Timestamp,
    pub state: NodeStateView,
}

impl View for NodeState {
    type V = NodeStateView;

    open spec fn view(&self) -> NodeStateView {
        match *self {
            NodeState::Provisioning => NodeStateView::Provisioning,
            NodeState::Busy { k8s_node_name, gitea_runner_id, gitea_runner_name } =>
                NodeStateView::Busy {
                k8s_node_name: k8s_node_name@,
                gitea_runner_id,
                gitea_runner_name: gitea_runner_name@,
            },
            NodeState::Idle { k8s_node_name, gitea_runner_id, gitea_runner_name, idle_since } =>
                NodeStateView::Idle {
                k8s_node_name: k8s_node_name@,
                gitea_runner_id,
                gitea_runner_name: gitea_runner_name@,
                idle_since,
            },
            NodeState::Deregistering { k8s_node_name, gitea_runner_id } =>
                NodeStateView::Deregistering { k8s_node_name: k8s_node_name@, gitea_runner_id },
            NodeState::Draining { k8s_node_name } => NodeStateView::Draining {
                k8s_node_name: k8s_node_name@,
            },
            NodeState::Removing => NodeStateView::Removing,
        }
    }
}

impl View for ManagedNode {
    type V = NodeView;

    open spec fn view(&self) -> NodeView {
        NodeView {
            server_id: self.hetzner_server_id,
            server_name: self.hetzner_server_name@,
            created_at: self.created_at,
            state: self.state@,
        }
    }
}

impl Clone for NodeState {
    fn clone(&self) -> (r: Self)
        ensures
            r == *self,
    {
        match self {
            NodeState::Provisioning => NodeState::Provisioning,
            NodeState::Busy { k8s_node_name, gitea_runner_id, gitea_runner_name } =>
                NodeState::Busy {
                k8s_node_name: k8s_node_name.clone(),
                gitea_runner_id: *gitea_runner_id,
                gitea_runner_name: gitea_runner_name.clone(),
            },
            NodeState::Idle { k8s_node_name, gitea_runner_id, gitea_runner_name, idle_since } =>
                NodeState::Idle {
                k8s_node_name: k8s_node_name.clone(),
                gitea_runner_id: *gitea_runner_id,
                gitea_runner_name: gitea_runner_name.clone(),
                idle_since: *idle_since,
            },
            NodeState::Deregistering { k8s_node_name, gitea_runner_id } =>
                NodeState::Deregistering {
                k8s_node_name: k8s_node_name.clone(),
                gitea_runner_id: *gitea_runner_id,
            },
            NodeState::Draining { k8s_node_name } => NodeState::Draining {
                k8s_node_name: k8s_node_name.clone(),
            },
            NodeState::Removing => NodeState::Removing,
        }
    }
}

impl Clone for ManagedNode {
    fn clone(&self) -> (r: Self)
        ensures
            r == *self,
    {
        ManagedNode {
            hetzner_server_id: self.hetzner_server_id,
            hetzner_server_name: self.hetzner_server_name.clone(),
            created_at: self.created_at,
            state: self.state.clone(),
        }
    }
}

impl NodeStateView {
    /// The instant since which the runner has had nothing to do is a valid one.
    pub open spec fn wf(self) -> bool {
        self matches NodeStateView::Idle { idle_since, .. } ==> idle_since.wf()
    }

    /// The stages of teardown that come after a node was idle.
    pub open spec fn in_teardown(self) -> bool {
        self is Deregistering || self is Draining || self is Removing
    }
}

impl NodeView {
    pub open spec fn wf(self) -> bool {
        self.created_at.wf() && self.state.wf()
    }
}

pub open spec fn all_wf(nodes: Seq<NodeView>) -> bool {
    forall|i: int| 0 <= i < nodes.len() ==> (#[trigger] nodes[i]).wf()
}

impl NodeState {
    /// The name of the state, as it appears in the metrics.
    pub fn state_name(&self) -> (r: &'static str)
        ensures
            r@ == self@.name(),
    {
        match self {
            NodeState::Provisioning => "provisioning",
            NodeState::Busy { .. } => "busy",
            NodeState::Idle { .. } => "idle",
            NodeState::Deregistering { .. } => "deregistering",
            NodeState::Draining { .. } => "draining",
            NodeState::Removing => "removing",
        }
    }
}

impl NodeStateView {
    pub open spec fn name(self) -> Seq<char> {
        match self {
            NodeStateView::Provisioning => "provisioning"@,
            NodeStateView::Busy { .. } => "busy"@,
            NodeStateView::Idle { .. } => "idle"@,
            NodeStateView::Deregistering { .. } => "deregistering"@,
            NodeStateView::Draining { .. } => "draining"@,
            NodeStateView::Removing => "removing"@,
        }
    }
}

/// The managed nodes, and what a new node needs to join the cluster.
#[derive(Debug)]
pub struct NodeManager {
    pub nodes: Vec<ManagedNode>,
    pub k3s_version: String,
    pub master_ip: String,
}

pub struct NodeManagerView {
    pub nodes: Seq<NodeView>,
    pub k3s_version: Seq<char>,
    pub master_ip: Seq<char>,
}

impl View for NodeManager {
    type V = NodeManagerView;

    open spec fn view(&self) -> NodeManagerView {
        NodeManagerView {
            nodes: views(self.nodes@),
            k3s_version: self.k3s_version@,
            master_ip: self.master_ip@,
        }
    }
}

pub open spec fn is_idle() -> spec_fn(NodeView) -> bool {
    |n: NodeView| n.state is Idle
}

pub open spec fn has_idle(nodes: Seq<NodeView>) -> bool {
    exists|i: int| 0 <= i < nodes.len() && (#[trigger] nodes[i]).state is Idle
}

pub open spec fn is_provisioning() -> spec_fn(NodeView) -> bool {
    |n: NodeView| n.state is Provisioning
}

pub open spec fn is_busy() -> spec_fn(NodeView) -> bool {
    |n: NodeView| n.state is Busy
}

pub open spec fn is_deregistering() -> spec_fn(NodeView) -> bool {
    |n: NodeView| n.state is Deregistering
}

pub open spec fn is_draining() -> spec_fn(NodeView) -> bool {
    |n: NodeView| n.state is Draining
}

pub open spec fn is_removing() -> spec_fn(NodeView) -> bool {
    |n: NodeView| n.state is Removing
}

pub open spec fn is_in_teardown() -> spec_fn(NodeView) -> bool {
    |n: NodeView| n.state.in_teardown()
}

pub open spec fn at_least_zero(n: int) -> int {
    if n > 0 {
        n
    } else {
        0
    }
}

/// How many servers to create: one for each waiting job that no idle, provisioning or permanent
/// runner can take, as far as the limit on managed nodes allows.
pub open spec fn scale_up_count(
    nodes: Seq<NodeView>,
    waiting: int,
    permanent_capacity: int,
    max_nodes: int,
) -> int {
    let needed = at_least_zero(
        waiting - nodes.filter(is_idle()).len() - nodes.filter(is_provisioning()).len()
            - permanent_capacity,
    );
    let room = at_least_zero(max_nodes - nodes.len());
    if needed < room {
        needed
    } else {
        room
    }
}

/// A runner that can take a job and does not run on a managed node: online, not busy, for Linux.
pub open spec fn has_permanent_capacity(managed: Seq<Seq<char>>) -> spec_fn(RunnerView) -> bool {
    |r: RunnerView|
        r.status == "online"@ && !r.busy && !managed.contains(r.name) && r.is_linux()
}

/// Within the last `window_mins` minutes of an hour since `created_at`.
pub open spec fn in_billing_window(created_at: Timestamp, now: Timestamp, window_mins: int) -> bool {
    trunc_rem(elapsed_mins(now, created_at), 60) + window_mins >= 60
}

/// A node to tear down: idle for as long as the timeout, and near the end of an hour that is
/// paid for.
pub open spec fn is_teardown_candidate(
    now: Timestamp,
    idle_timeout: Duration,
    billing_window_mins: int,
) -> spec_fn(NodeView) -> bool {
    |n: NodeView|
        {
            &&& n.state matches NodeStateView::Idle { idle_since, .. }
            &&& elapsed_nanos(now, idle_since) >= idle_timeout.total()
            &&& in_billing_window(n.created_at, now, billing_window_mins)
        }
}

/// The runner that a node's job would run on.
pub open spec fn runner_name_of() -> spec_fn(NodeView) -> Option<Seq<char>> {
    |n: NodeView|
        match n.state {
            NodeStateView::Busy { gitea_runner_name, .. } => Some(gitea_runner_name),
            NodeStateView::Idle { gitea_runner_name, .. } => Some(gitea_runner_name),
            _ => None,
        }
}

/// The age of each node in seconds, by server name; the last of two nodes of one name counts.
pub open spec fn age_gauges(nodes: Seq<NodeView>, now: Timestamp) -> Map<Seq<char>, u64>
    decreases nodes.len(),
{
    if nodes.len() == 0 {
        Map::empty()
    } else {
        let node = nodes.last();
        age_gauges(nodes.drop_last(), now).insert(
            node.server_name,
            at_least_zero(elapsed_secs(now, node.created_at)) as u64,
        )
    }
}

/// For how many seconds each idle node has been idle, by server name.
pub open spec fn idle_gauges(nodes: Seq<NodeView>, now: Timestamp) -> Map<Seq<char>, u64>
    decreases nodes.len(),
{
    if nodes.len() == 0 {
        Map::empty()
    } else {
        let node = nodes.last();
        let rest = idle_gauges(nodes.drop_last(), now);
        match node.state {
            NodeStateView::Idle { idle_since, .. } => rest.insert(
                node.server_name,
                at_least_zero(elapsed_secs(now, idle_since)) as u64,
            ),
            _ => rest,
        }
    }
}

/// The metrics with the node counts and the values by node set anew.
pub open spec fn metrics_of_nodes(
    metrics: MetricsView,
    nodes: Seq<NodeView>,
    now: Timestamp,
) -> MetricsView {
    MetricsView {
        managed_nodes: state_counts(
            metrics.managed_nodes,
            nodes.filter(is_provisioning()).len() as int,
            nodes.filter(is_busy()).len() as int,
            nodes.filter(is_idle()).len() as int,
            nodes.filter(is_deregistering()).len() as int,
            nodes.filter(is_draining()).len() as int,
            nodes.filter(is_removing()).len() as int,
        ),
        node_age_seconds: age_gauges(nodes, now),
        node_idle_seconds: idle_gauges(nodes, now),
        ..metrics
    }
}

/// A call to an outside service that takes a node one stage further in its teardown.
#[derive(Debug)]
pub enum TeardownCall {
    DeleteRunner { runner_id: u64 },
    DrainNode { node_name: String },
    DeleteNode { node_name: String },
    DeleteServer { server_id: i64 },
}

pub enum TeardownCallView {
    DeleteRunner { runner_id: u64 },
    DrainNode { node_name: Seq<char> },
    DeleteNode { node_name: Seq<char> },
    DeleteServer { server_id: i64 },
}

impl View for TeardownCall {
    type V = TeardownCallView;

    open spec fn view(&self) -> TeardownCallView {
        match *self {
            TeardownCall::DeleteRunner { runner_id } => TeardownCallView::DeleteRunner {
                runner_id,
            },
            TeardownCall::DrainNode { node_name } => TeardownCallView::DrainNode {
                node_name: node_name@,
            },
            TeardownCall::DeleteNode { node_name } => TeardownCallView::DeleteNode {
                node_name: node_name@,
            },
            TeardownCall::DeleteServer { server_id } => TeardownCallView::DeleteServer {
                server_id,
            },
        }
    }
}

/// How far one step of a teardown has come.
#[derive(Debug, Clone, Copy, PartialEq, Eq, Structural)]
pub enum TeardownProgress {
    /// The step is over; `removed` says whether the node is gone.
    Finished { removed: bool },
    /// The node has left the cluster, and the same step goes on to delete its server.
    ServerLeft,
}

/// The call that comes next in the teardown of a node; none for one that is not torn down.
pub open spec fn next_teardown_call(node: NodeView) -> Option<TeardownCallView> {
    match node.state {
        NodeStateView::Idle { gitea_runner_id, .. } => Some(
            TeardownCallView::DeleteRunner { runner_id: gitea_runner_id },
        ),
        NodeStateView::Deregistering { k8s_node_name, .. } => Some(
            TeardownCallView::DrainNode { node_name: k8s_node_name },
        ),
        NodeStateView::Draining { k8s_node_name } => Some(
            TeardownCallView::DeleteNode { node_name: k8s_node_name },
        ),
        NodeStateView::Removing => Some(
            TeardownCallView::DeleteServer { server_id: node.server_id },
        ),
        _ => None,
    }
}

/// The state after the call succeeded, for the stages after which the node is still there.
pub open spec fn next_teardown_state(state: NodeStateView) -> NodeStateView {
    match state {
        NodeStateView::Idle { k8s_node_name, gitea_runner_id, .. } =>
            NodeStateView::Deregistering { k8s_node_name, gitea_runner_id },
        NodeStateView::Deregistering { k8s_node_name, .. } => NodeStateView::Draining {
            k8s_node_name,
        },
        NodeStateView::Draining { .. } => NodeStateView::Removing,
        _ => state,
    }
}

/// The nodes after the teardown call of the node at `index`.
pub open spec fn nodes_after_teardown_call(
    nodes: Seq<NodeView>,
    index: int,
    succeeded: bool,
) -> Seq<NodeView> {
    if !succeeded {
        nodes
    } else if nodes[index].state is Removing {
        nodes.remove(index)
    } else {
        nodes.update(
            index,
            NodeView { state: next_teardown_state(nodes[index].state), ..nodes[index] },
        )
    }
}

/// The metrics after the teardown call of a node in a state.
pub open spec fn metrics_after_teardown_call(
    metrics: MetricsView,
    state: NodeStateView,
    succeeded: bool,
) -> MetricsView {
    match state {
        NodeStateView::Idle { .. } => if succeeded {
            metrics.runner_deregistered()
        } else {
            metrics.scale_down_failed()
        },
        NodeStateView::Deregistering { .. } => if succeeded {
            metrics
        } else {
            metrics.scale_down_failed()
        },
        NodeStateView::Draining { .. } => if succeeded {
            metrics
        } else {
            metrics.scale_down_failed()
        },
        NodeStateView::Removing => if succeeded {
            metrics.server_deleted()
        } else {
            metrics.scale_down_failed()
        },
        _ => metrics,
    }
}

pub open spec fn progress_after_teardown_call(
    state: NodeStateView,
    succeeded: bool,
) -> TeardownProgress {
    if state is Draining && succeeded {
        TeardownProgress::ServerLeft
    } else {
        TeardownProgress::Finished { removed: state is Removing && succeeded }
    }
}

/// The shape of a version 4 UUID as text: lower-case hexadecimal digits in groups of 8, 4, 4, 4
/// and 12, with the version and the variant in their places.
pub open spec fn is_uuid_v4_text(s: Seq<char>) -> bool {
    &&& s.len() == 36
    &&& forall|i: int|
        0 <= i < 36 ==> if i == 8 || i == 13 || i == 18 || i == 23 {
            #[trigger] s[i] == '-'
        } else {
            is_hex_digit(s[i])
        }
    &&& s[14] == '4'
    &&& s[19] == '8' || s[19] == '9' || s[19] == 'a' || s[19] == 'b'
}

pub open spec fn is_hex_digit(c: char) -> bool {
    '0' <= c <= '9' || 'a' <= c <= 'f'
}

/// `uuid::Uuid::new_v4`, as text. Claimed of it: whatever comes back has the shape of a version 4
/// UUID.
#[verifier::external_body]
pub(crate) fn new_uuid_text() -> (r: String)
    ensures
        is_uuid_v4_text(r@),
{
    uuid::Uuid::new_v4().to_string()
}

/// The name of a server: a fixed prefix and the first eight characters of an identifier.
pub fn server_name(id: &str) -> (r: String)
    requires
        id@.len() >= 8,
    ensures
        r@ == "ci-runner-"@ + id@.take(8),
{
    let mut r = "ci-runner-".to_owned();
    r.append(id.substring_char(0, 8));
    assert(id@.subrange(0, 8) =~= id@.take(8));
    r
}

fn runner_is_linux(runner: &Runner) -> (r: bool)
    ensures
        r == runner@.is_linux(),
{
    let mut i: usize = 0;
    while i < runner.labels.len()
        invariant
            0 <= i <= runner.labels@.len(),
            forall|j: int| 0 <= j < i ==> (#[trigger] runner.labels@[j])@ != "linux"@,
        decreases runner.labels@.len() - i,
    {
        if same_text(runner.labels[i].name.as_str(), "linux") {
            assert(runner@.labels[i as int] == "linux"@);
            return true;
        }
        i = i + 1;
    }
    assert forall|j: int| 0 <= j < runner@.labels.len() implies runner@.labels[j] != "linux"@ by {
        assert(runner.labels@[j]@ != "linux"@);
    }
    false
}

/// How many jobs the runners outside the managed nodes can take: one for each that is online,
/// not busy and for Linux.
pub fn permanent_runner_capacity(runners: &[Runner], managed_runner_names: &[String]) -> (r: usize)
    ensures
        r == views(runners@).filter(has_permanent_capacity(views(managed_runner_names@))).len(),
{
    let ghost all = views(runners@);
    let ghost p = has_permanent_capacity(views(managed_runner_names@));
    let mut count: usize = 0;
    let mut i: usize = 0;
    proof {
        reveal(Seq::filter);
    }
    while i < runners.len()
        invariant
            0 <= i <= runners@.len(),
            count <= i,
            all == views(runners@),
            p == has_permanent_capacity(views(managed_runner_names@)),
            count == all.take(i as int).filter(p).len(),
        decreases runners@.len() - i,
    {
        let runner = &runners[i];
        assert(all[i as int] == runner@);
        proof {
            lemma_filter_take(all, p, i as int);
        }
        if same_text(runner.status.as_str(), "online") && !runner.busy && !contains_text(
            managed_runner_names,
            runner.name.as_str(),
        ) && runner_is_linux(runner) {
            count = count + 1;
        }
        i = i + 1;
    }
    assert(all.take(i as int) =~= all);
    count
}

/// True if `now` is within the last `window_mins` minutes of the server's billing hour.
pub fn is_in_billing_window(created_at: Timestamp, now: Timestamp, window_mins: u64) -> (r: bool)
    requires
        created_at.wf(),
        now.wf(),
    ensures
        r == in_billing_window(created_at, now, window_mins as int),
{
    let minutes: i64 = now.minutes_since(created_at);
    assert(minutes > i64::MIN);
    let into_hour: i64 = if minutes >= 0 {
        minutes % 60
    } else {
        -((-minutes) % 60)
    };
    assert(into_hour == trunc_rem(minutes as int, 60));
    let missing: i64 = 60 - into_hour;
    window_mins >= missing as u64
}

impl NodeManager {
    pub open spec fn wf(self) -> bool {
        all_wf(self@.nodes)
    }

    pub fn new(k3s_version: String, master_ip: String) -> (r: NodeManager)
        ensures
            r.wf(),
            r@.nodes == Seq::<NodeView>::empty(),
            r@.k3s_version == k3s_version@,
            r@.master_ip == master_ip@,
    {
        let r = NodeManager { nodes: Vec::new(), k3s_version, master_ip };
        assert(r@.nodes =~= Seq::<NodeView>::empty());
        r
    }

    /// How many servers to create.
    pub fn compute_scale_up(
        &self,
        waiting_linux_jobs: usize,
        permanent_runner_capacity: usize,
        max_nodes: usize,
    ) -> (r: usize)
        ensures
            r == scale_up_count(
                self@.nodes,
                waiting_linux_jobs as int,
                permanent_runner_capacity as int,
                max_nodes as int,
            ),
    {
        let mut idle: usize = 0;
        let mut provisioning: usize = 0;
        let mut i: usize = 0;
        let ghost all = self@.nodes;
        proof {
            reveal(Seq::filter);
        }
        while i < self.nodes.len()
            invariant
                0 <= i <= self.nodes@.len(),
                idle <= i,
                provisioning <= i,
                all == views(self.nodes@),
                idle == all.take(i as int).filter(is_idle()).len(),
                provisioning == all.take(i as int).filter(is_provisioning()).len(),
            decreases self.nodes@.len() - i,
        {
            proof {
                lemma_filter_take(all, is_idle(), i as int);
                lemma_filter_take(all, is_provisioning(), i as int);
            }
            match self.nodes[i].state {
                NodeState::Idle { .. } => {
                    idle = idle + 1;
                },
                NodeState::Provisioning => {
                    provisioning = provisioning + 1;
                },
                _ => {},
            }
            i = i + 1;
        }
        assert(all.take(i as int) =~= all);
        let needed: usize = waiting_linux_jobs.saturating_sub(idle).saturating_sub(
            provisioning,
        ).saturating_sub(permanent_runner_capacity);
        let room: usize = max_nodes.saturating_sub(self.nodes.len());
        if needed < room {
            needed
        } else {
            room
        }
    }

    /// Take in the outcome of one server creation: the server, or nothing if the call failed.
    pub fn scale_up(&mut self, created: Option<HetznerServer>, metrics: &mut Metrics)
        requires
            old(self).wf(),
            old(metrics).wf(),
            created matches Some(server) ==> server.created.wf(),
        ensures
            final(self).wf(),
            final(metrics).wf(),
            final(self)@ == (match created {
                Some(server) => NodeManagerView {
                    nodes: old(self)@.nodes.push(
                        NodeView {
                            server_id: server.id,
                            server_name: server.name@,
                            created_at: server.created,
                            state: NodeStateView::Provisioning,
                        },
                    ),
                    ..old(self)@
                },
                None => old(self)@,
            }),
            final(metrics)@ == (match created {
                Some(_) => old(metrics)@.server_created(),
                None => old(metrics)@.scale_up_failed(),
            }),
    {
        match created {
            Some(server) => {
                metrics.count_server_created();
                let node = ManagedNode {
                    hetzner_server_id: server.id,
                    hetzner_server_name: server.name,
                    created_at: server.created,
                    state: NodeState::Provisioning,
                };
                proof {
                    lemma_views_push(self.nodes@, node);
                }
                self.nodes.push(node);
            },
            None => {
                metrics.count_scale_up_error();
            },
        }
    }

    /// The positions of the nodes to tear down, in ascending order.
    pub fn find_teardown_candidates(
        &self,
        now: Timestamp,
        idle_timeout: Duration,
        billing_window_mins: u64,
    ) -> (r: Vec<usize>)
        requires
            self.wf(),
            now.wf(),
            idle_timeout.wf(),
            has_idle(self@.nodes) ==> idle_timeout.representable(),
        ensures
            ints(r@) == indices_where(
                self@.nodes,
                is_teardown_candidate(now, idle_timeout, billing_window_mins as int),
            ),
    {
        let ghost all = self@.nodes;
        let ghost p = is_teardown_candidate(now, idle_timeout, billing_window_mins as int);
        let mut r: Vec<usize> = Vec::new();
        let mut i: usize = 0;
        assert(ints(r@) =~= indices_where(all.take(0), p));
        while i < self.nodes.len()
            invariant
                0 <= i <= self.nodes@.len(),
                self.wf(),
                now.wf(),
                idle_timeout.wf(),
                all == views(self.nodes@),
                all == self@.nodes,
                has_idle(all) ==> idle_timeout.representable(),
                p == is_teardown_candidate(now, idle_timeout, billing_window_mins as int),
                ints(r@) == indices_where(all.take(i as int), p),
            decreases self.nodes@.len() - i,
        {
            let node = &self.nodes[i];
            assert(all[i as int] == node@);
            assert(all[i as int].wf());
            proof {
                lemma_take_one_more(all, i as int);
            }
            let eligible = match &node.state {
                NodeState::Idle { idle_since, .. } => {
                    let idle_for: Span = now.since(*idle_since);
                    match idle_timeout.to_span() {
                        Some(limit) => idle_for.at_least(limit) && is_in_billing_window(
                            node.created_at,
                            now,
                            billing_window_mins,
                        ),
                        None => false,
                    }
                },
                _ => false,
            };
            let ghost before = r@;
            if eligible {
                r.push(i);
                assert(ints(r@) =~= ints(before).push(i as int));
            }
            i = i + 1;
        }
        assert(all.take(i as int) =~= all);
        r
    }

    /// The positions of the nodes that are in one of the later stages of teardown, in ascending
    /// order.
    pub fn nodes_in_teardown(&self) -> (r: Vec<usize>)
        ensures
            ints(r@) == indices_where(self@.nodes, is_in_teardown()),
    {
        let ghost all = self@.nodes;
        let mut r: Vec<usize> = Vec::new();
        let mut i: usize = 0;
        assert(ints(r@) =~= indices_where(all.take(0), is_in_teardown()));
        while i < self.nodes.len()
            invariant
                0 <= i <= self.nodes@.len(),
                all == views(self.nodes@),
                ints(r@) == indices_where(all.take(i as int), is_in_teardown()),
            decreases self.nodes@.len() - i,
        {
            proof {
                lemma_take_one_more(all, i as int);
            }
            let in_teardown = match self.nodes[i].state {
                NodeState::Deregistering { .. } => true,
                NodeState::Draining { .. } => true,
                NodeState::Removing => true,
                _ => false,
            };
            let ghost before = r@;
            if in_teardown {
                r.push(i);
                assert(ints(r@) =~= ints(before).push(i as int));
            }
            i = i + 1;
        }
        assert(all.take(i as int) =~= all);
        r
    }

    /// The names of the runners on the managed nodes.
    pub fn managed_runner_names(&self) -> (r: Vec<String>)
        ensures
            views(r@) == self@.nodes.filter_map(runner_name_of()),
    {
        let ghost all = self@.nodes;
        let mut r: Vec<String> = Vec::new();
        let mut i: usize = 0;
        assert(views(r@) =~= all.take(0).filter_map(runner_name_of()));
        while i < self.nodes.len()
            invariant
                0 <= i <= self.nodes@.len(),
                all == views(self.nodes@),
                views(r@) == all.take(i as int).filter_map(runner_name_of()),
            decreases self.nodes@.len() - i,
        {
            proof {
                lemma_filter_map_take(all, runner_name_of(), i as int);
            }
            match &self.nodes[i].state {
                NodeState::Busy { gitea_runner_name, .. } => {
                    proof {
                        lemma_views_push(r@, *gitea_runner_name);
                    }
                    r.push(gitea_runner_name.clone());
                },
                NodeState::Idle { gitea_runner_name, .. } => {
                    proof {
                        lemma_views_push(r@, *gitea_runner_name);
                    }
                    r.push(gitea_runner_name.clone());
                },
                _ => {},
            }
            i = i + 1;
        }
        assert(all.take(i as int) =~= all);
        r
    }

    /// The call that comes next in the teardown of the node at `index`.
    pub fn teardown_call(&self, index: usize) -> (r: Option<TeardownCall>)
        requires
            index < self@.nodes.len(),
        ensures
            match r {
                Some(call) => next_teardown_call(self@.nodes[index as int]) == Some(call@),
                None => next_teardown_call(self@.nodes[index as int]) is None,
            },
    {
        let node = &self.nodes[index];
        assert(self@.nodes[index as int] == node@);
        match &node.state {
            NodeState::Idle { gitea_runner_id, .. } => Some(
                TeardownCall::DeleteRunner { runner_id: *gitea_runner_id },
            ),
            NodeState::Deregistering { k8s_node_name, .. } => Some(
                TeardownCall::DrainNode { node_name: k8s_node_name.clone() },
            ),
            NodeState::Draining { k8s_node_name } => Some(
                TeardownCall::DeleteNode { node_name: k8s_node_name.clone() },
            ),
            NodeState::Removing => Some(
                TeardownCall::DeleteServer { server_id: node.hetzner_server_id },
            ),
            _ => None,
        }
    }

    fn set_state(&mut self, index: usize, state: NodeState)
        requires
            old(self).wf(),
            index < old(self)@.nodes.len(),
            state@.wf(),
        ensures
            final(self).wf(),
            final(self)@ == (NodeManagerView {
                nodes: old(self)@.nodes.update(
                    index as int,
                    NodeView { state: state@, ..old(self)@.nodes[index as int] },
                ),
                ..old(self)@
            }),
    {
        self.nodes[index].state = state;
        assert(self@.nodes =~= old(self)@.nodes.update(
            index as int,
            NodeView { state: state@, ..old(self)@.nodes[index as int] },
        ));
        assert forall|i: int| 0 <= i < self@.nodes.len() implies (#[trigger] self@.nodes[i]).wf() by {
            assert(old(self)@.nodes[i].wf());
        }
    }

    /// Take in the outcome of the teardown call of the node at `index`.
    ///
    /// The runner is deregistered first, then the node is drained, then it is deleted from the
    /// cluster, and last the server is deleted. A call that failed leaves the node where it is.
    pub fn teardown_step(&mut self, index: usize, succeeded: bool, metrics: &mut Metrics) -> (r:
        TeardownProgress)
        requires
            old(self).wf(),
            old(metrics).wf(),
            index < old(self)@.nodes.len(),
        ensures
            final(self).wf(),
            final(metrics).wf(),
            final(self)@ == (NodeManagerView {
                nodes: nodes_after_teardown_call(old(self)@.nodes, index as int, succeeded),
                ..old(self)@
            }),
            final(metrics)@ == metrics_after_teardown_call(
                old(metrics)@,
                old(self)@.nodes[index as int].state,
                succeeded,
            ),
            r == progress_after_teardown_call(old(self)@.nodes[index as int].state, succeeded),
    {
        let state = self.nodes[index].state.clone();
        assert(self@.nodes[index as int].state == state@);
        match state {
            NodeState::Idle { k8s_node_name, gitea_runner_id, .. } => {
                if succeeded {
                    metrics.count_runner_deregistered();
                    self.set_state(
                        index,
                        NodeState::Deregistering { k8s_node_name, gitea_runner_id },
                    );
                } else {
                    metrics.count_scale_down_error();
                }
                TeardownProgress::Finished { removed: false }
            },
            NodeState::Deregistering { k8s_node_name, .. } => {
                if succeeded {
                    self.set_state(index, NodeState::Draining { k8s_node_name });
                } else {
                    metrics.count_scale_down_error();
                }
                TeardownProgress::Finished { removed: false }
            },
            NodeState::Draining { .. } => {
                if succeeded {
                    self.set_state(index, NodeState::Removing);
                    TeardownProgress::ServerLeft
                } else {
                    metrics.count_scale_down_error();
                    TeardownProgress::Finished { removed: false }
                }
            },
            NodeState::Removing => {
                let removed = self.try_delete_hetzner_server(index, succeeded, metrics);
                TeardownProgress::Finished { removed }
            },
            _ => {
                proof {
                    assert(self@.nodes.update(index as int, self@.nodes[index as int])
                        =~= self@.nodes);
                }
                TeardownProgress::Finished { removed: false }
            },
        }
    }

    fn remove_at(&mut self, index: usize)
        requires
            old(self).wf(),
            index < old(self)@.nodes.len(),
        ensures
            final(self).wf(),
            final(self)@ == (NodeManagerView {
                nodes: old(self)@.nodes.remove(index as int),
                ..old(self)@
            }),
    {
        let ghost before = self@.nodes;
        self.nodes.remove(index);
        assert(self@.nodes =~= before.remove(index as int));
        assert forall|i: int| 0 <= i < self@.nodes.len() implies (#[trigger] self@.nodes[i]).wf() by {
            assert(before[i].wf());
            if i >= index {
                assert(before[i + 1].wf());
            }
        }
    }

    /// Take in the outcome of deleting the server of the node at `index`: the node goes only
    /// with its server.
    fn try_delete_hetzner_server(
        &mut self,
        index: usize,
        deleted: bool,
        metrics: &mut Metrics,
    ) -> (r: bool)
        requires
            old(self).wf(),
            old(metrics).wf(),
            index < old(self)@.nodes.len(),
        ensures
            final(self).wf(),
            final(metrics).wf(),
            r == deleted,
            final(self)@ == (NodeManagerView {
                nodes: if deleted {
                    old(self)@.nodes.remove(index as int)
                } else {
                    old(self)@.nodes
                },
                ..old(self)@
            }),
            final(metrics)@ == if deleted {
                old(metrics)@.server_deleted()
            } else {
                old(metrics)@.scale_down_failed()
            },
    {
        if deleted {
            metrics.count_server_deleted();
            self.remove_at(index);
        } else {
            metrics.count_scale_down_error();
        }
        deleted
    }

    fn position_of(&self, server_id: i64) -> (r: Option<usize>)
        ensures
            match r {
                Some(i) => {
                    &&& i < self@.nodes.len()
                    &&& node_of_server(server_id)(self@.nodes[i as int])
                    &&& forall|j: int|
                        0 <= j < i ==> !node_of_server(server_id)(#[trigger] self@.nodes[j])
                },
                None => forall|j: int|
                    0 <= j < self@.nodes.len() ==> !node_of_server(server_id)(
                        #[trigger] self@.nodes[j],
                    ),
            },
    {
        let mut i: usize = 0;
        while i < self.nodes.len()
            invariant
                0 <= i <= self.nodes@.len(),
                forall|j: int|
                    0 <= j < i ==> !node_of_server(server_id)(#[trigger] self@.nodes[j]),
            decreases self.nodes@.len() - i,
        {
            assert(self@.nodes[i as int] == self.nodes@[i as int]@);
            if self.nodes[i].hetzner_server_id == server_id {
                return Some(i);
            }
            i = i + 1;
        }
        None
    }

    /// Take in the outcome of deleting a server that did not come up in time. Its node goes with
    /// it, if there is one.
    pub fn delete_stuck_server(&mut self, server_id: i64, deleted: bool, metrics: &mut Metrics)
        requires
            old(self).wf(),
            old(metrics).wf(),
        ensures
            final(self).wf(),
            final(metrics).wf(),
            final(self)@ == (NodeManagerView {
                nodes: if deleted {
                    remove_first(old(self)@.nodes, node_of_server(server_id))
                } else {
                    old(self)@.nodes
                },
                ..old(self)@
            }),
            final(metrics)@ == if deleted {
                old(metrics)@.server_deleted().scale_up_failed()
            } else {
                old(metrics)@
            },
    {
        if deleted {
            metrics.count_server_deleted();
            metrics.count_scale_up_error();
            let found = self.position_of(server_id);
            match found {
                Some(i) => {
                    proof {
                        lemma_remove_first_at(self@.nodes, node_of_server(server_id), i as int);
                    }
                    self.remove_at(i);
                },
                None => {
                    proof {
                        lemma_remove_first_none(self@.nodes, node_of_server(server_id));
                    }
                },
            }
        }
    }

    /// Set the metrics that describe the nodes.
    pub fn update_metrics(&self, metrics: &mut Metrics, now: Timestamp)
        requires
            self.wf(),
            old(metrics).wf(),
            now.wf(),
        ensures
            final(metrics).wf(),
            final(metrics)@ == metrics_of_nodes(old(metrics)@, self@.nodes, now),
    {
        metrics.node_age_seconds.reset();
        metrics.node_idle_seconds.reset();
        let ghost all = self@.nodes;
        let mut provisioning: usize = 0;
        let mut busy: usize = 0;
        let mut idle: usize = 0;
        let mut deregistering: usize = 0;
        let mut draining: usize = 0;
        let mut removing: usize = 0;
        let mut i: usize = 0;
        proof {
            reveal(Seq::filter);
        }
        while i < self.nodes.len()
            invariant
                0 <= i <= self.nodes@.len(),
                self.wf(),
                now.wf(),
                metrics.wf(),
                all == views(self.nodes@),
                all == self@.nodes,
                provisioning <= i,
                busy <= i,
                idle <= i,
                deregistering <= i,
                draining <= i,
                removing <= i,
                provisioning == all.take(i as int).filter(is_provisioning()).len(),
                busy == all.take(i as int).filter(is_busy()).len(),
                idle == all.take(i as int).filter(is_idle()).len(),
                deregistering == all.take(i as int).filter(is_deregistering()).len(),
                draining == all.take(i as int).filter(is_draining()).len(),
                removing == all.take(i as int).filter(is_removing()).len(),
                metrics@ == (MetricsView {
                    node_age_seconds: age_gauges(all.take(i as int), now),
                    node_idle_seconds: idle_gauges(all.take(i as int), now),
                    ..old(metrics)@
                }),
            decreases self.nodes@.len() - i,
        {
            let node = &self.nodes[i];
            assert(all[i as int] == node@);
            assert(all[i as int].wf());
            proof {
                lemma_take_one_more(all, i as int);
                lemma_filter_take(all, is_provisioning(), i as int);
                lemma_filter_take(all, is_busy(), i as int);
                lemma_filter_take(all, is_idle(), i as int);
                lemma_filter_take(all, is_deregistering(), i as int);
                lemma_filter_take(all, is_draining(), i as int);
                lemma_filter_take(all, is_removing(), i as int);
            }
            match &node.state {
                NodeState::Provisioning => {
                    provisioning = provisioning + 1;
                },
                NodeState::Busy { .. } => {
                    busy = busy + 1;
                },
                NodeState::Idle { idle_since, .. } => {
                    idle = idle + 1;
                    let idle_secs: u64 = not_negative(now.seconds_since(*idle_since));
                    metrics.node_idle_seconds.set(node.hetzner_server_name.as_str(), idle_secs);
                },
                NodeState::Deregistering { .. } => {
                    deregistering = deregistering + 1;
                },
                NodeState::Draining { .. } => {
                    draining = draining + 1;
                },
                NodeState::Removing => {
                    removing = removing + 1;
                },
            }
            let age_secs: u64 = not_negative(now.seconds_since(node.created_at));
            metrics.node_age_seconds.set(node.hetzner_server_name.as_str(), age_secs);
            i = i + 1;
        }
        assert(all.take(i as int) =~= all);
        metrics.set_managed_node_counts(
            provisioning,
            busy,
            idle,
            deregistering,
            draining,
            removing,
        );
    }
}

fn not_negative(n: i64) -> (r: u64)
    ensures
        r == at_least_zero(n as int),
{
    if n > 0 {
        n as u64
    } else {
        0
    }
}

/// Scaling up never takes the managed nodes beyond the limit, and creates nothing where they are
/// at the limit already.
pub proof fn scale_up_keeps_the_limit(
    nodes: Seq<NodeView>,
    waiting: int,
    permanent_capacity: int,
    max_nodes: int,
)
    ensures
        scale_up_count(nodes, waiting, permanent_capacity, max_nodes) >= 0,
        nodes.len() <= max_nodes ==> nodes.len() + scale_up_count(
            nodes,
            waiting,
            permanent_capacity,
            max_nodes,
        ) <= max_nodes,
        nodes.len() >= max_nodes ==> scale_up_count(nodes, waiting, permanent_capacity, max_nodes)
            == 0,
{
}

/// Idle nodes, nodes that are provisioning and permanent runners count as capacity: nothing is
/// created where they cover the waiting jobs. Where they do not, what is created makes up for
/// the difference, or takes the nodes up to the limit.
pub proof fn scale_up_meets_the_demand(
    nodes: Seq<NodeView>,
    waiting: int,
    permanent_capacity: int,
    max_nodes: int,
)
    ensures
        ({
            let capacity = nodes.filter(is_idle()).len() + nodes.filter(is_provisioning()).len()
                + permanent_capacity;
            let count = scale_up_count(nodes, waiting, permanent_capacity, max_nodes);
            &&& waiting <= capacity ==> count == 0
            &&& waiting > capacity ==> capacity + count == waiting || nodes.len() + count
                >= max_nodes
        }),
{
}

/// The nodes after `created` servers were created, whatever they are called.
pub open spec fn is_scaled_up(before: Seq<NodeView>, after: Seq<NodeView>, created: int) -> bool {
    &&& after.len() == before.len() + created
    &&& forall|i: int| 0 <= i < before.len() ==> #[trigger] after[i] == before[i]
    &&& forall|i: int| before.len() <= i < after.len() ==> (#[trigger] after[i]).state is Provisioning
}

/// The same jobs are not scaled up for twice: once the servers were created that are needed, no
/// more are needed.
pub proof fn scale_up_happens_once(
    before: Seq<NodeView>,
    after: Seq<NodeView>,
    waiting: int,
    permanent_capacity: int,
    max_nodes: int,
)
    requires
        is_scaled_up(
            before,
            after,
            scale_up_count(before, waiting, permanent_capacity, max_nodes),
        ),
    ensures
        scale_up_count(after, waiting, permanent_capacity, max_nodes) == 0,
{
    lemma_scaled_up_counts(before, after);
}

proof fn lemma_scaled_up_counts(before: Seq<NodeView>, after: Seq<NodeView>)
    requires
        is_scaled_up(before, after, after.len() - before.len()),
        after.len() >= before.len(),
    ensures
        after.filter(is_idle()).len() == before.filter(is_idle()).len(),
        after.filter(is_provisioning()).len() == before.filter(is_provisioning()).len()
            + after.len() - before.len(),
    decreases after.len(),
{
    if after.len() == before.len() {
        assert(after =~= before);
    } else {
        reveal(Seq::filter);
        lemma_scaled_up_counts(before, after.drop_last());
    }
}

/// A node that goes through its teardown without failures is taken from Gitea first, then
/// drained, then taken from the cluster, and its server is deleted last. Then it is gone.
pub proof fn teardown_goes_in_order(nodes: Seq<NodeView>, index: int)
    requires
        0 <= index < nodes.len(),
        nodes[index].state is Idle,
    ensures
        ({
            let one = nodes_after_teardown_call(nodes, index, true);
            let two = nodes_after_teardown_call(one, index, true);
            let three = nodes_after_teardown_call(two, index, true);
            let four = nodes_after_teardown_call(three, index, true);
            let node = nodes[index];
            let k8s_name = node.state->Idle_k8s_node_name;
            &&& next_teardown_call(node) == Some(
                TeardownCallView::DeleteRunner { runner_id: node.state->Idle_gitea_runner_id },
            )
            &&& one[index].state is Deregistering
            &&& next_teardown_call(one[index]) == Some(
                TeardownCallView::DrainNode { node_name: k8s_name },
            )
            &&& two[index].state is Draining
            &&& next_teardown_call(two[index]) == Some(
                TeardownCallView::DeleteNode { node_name: k8s_name },
            )
            &&& three[index].state is Removing
            &&& next_teardown_call(three[index]) == Some(
                TeardownCallView::DeleteServer { server_id: node.server_id },
            )
            &&& four == nodes.remove(index)
        }),
{
    let one = nodes_after_teardown_call(nodes, index, true);
    let two = nodes_after_teardown_call(one, index, true);
    let three = nodes_after_teardown_call(two, index, true);
    assert(three.remove(index) =~= nodes.remove(index));
}

/// A call that fails leaves every node as it is, so that the same call is made again.
pub proof fn failed_teardown_call_is_repeated(nodes: Seq<NodeView>, index: int)
    requires
        0 <= index < nodes.len(),
    ensures
        nodes_after_teardown_call(nodes, index, false) == nodes,
        next_teardown_call(nodes_after_teardown_call(nodes, index, false)[index])
            == next_teardown_call(nodes[index]),
{
}

/// A teardown call concerns one node: the others stay, in their order.
pub proof fn teardown_call_leaves_the_others(nodes: Seq<NodeView>, index: int, succeeded: bool)
    requires
        0 <= index < nodes.len(),
    ensures
        forall|i: int|
            0 <= i < index ==> #[trigger] nodes[i] == nodes_after_teardown_call(
                nodes,
                index,
                succeeded,
            )[i],
        nodes_after_teardown_call(nodes, index, succeeded).len() == nodes.len() ==> forall|i: int|
            index < i < nodes.len() ==> #[trigger] nodes[i] == nodes_after_teardown_call(
                nodes,
                index,
                succeeded,
            )[i],
        nodes_after_teardown_call(nodes, index, succeeded).len() != nodes.len()
            ==> nodes_after_teardown_call(nodes, index, succeeded) == nodes.remove(index),
{
}

/// Nodes that are provisioning or busy are not torn down: no call is made for them, they are
/// never candidates, and an idle one is a candidate only after its timeout and in its billing
/// window.
pub proof fn only_idle_nodes_are_candidates(
    node: NodeView,
    now: Timestamp,
    idle_timeout: Duration,
    window: int,
)
    ensures
        node.state is Provisioning || node.state is Busy ==> next_teardown_call(node) is None,
        is_teardown_candidate(now, idle_timeout, window)(node) ==> node.state is Idle
            && elapsed_nanos(now, node.state->idle_since) >= idle_timeout.total()
            && in_billing_window(node.created_at, now, window),
{
}

/// With a window of no minutes nothing is in it; with one of an hour every instant from the
/// creation on is; and a longer window holds whatever a shorter one does.
pub proof fn billing_window_grows(
    created_at: Timestamp,
    now: Timestamp,
    shorter: int,
    longer: int,
)
    ensures
        !in_billing_window(created_at, now, 0),
        elapsed_nanos(now, created_at) >= 0 && longer >= 60 ==> in_billing_window(
            created_at,
            now,
            longer,
        ),
        shorter <= longer && in_billing_window(created_at, now, shorter) ==> in_billing_window(
            created_at,
            now,
            longer,
        ),
{
}

/// An hour after `t`.
pub open spec fn an_hour_after(t: Timestamp) -> Timestamp {
    Timestamp { secs: (t.secs + 3600) as i64, nanos: t.nanos }
}

/// The minutes up to an hour after `now` are sixty more than those up to `now`, and both are
/// counted from the creation on or both up to it.
pub open spec fn an_hour_counts_as_sixty_minutes(created_at: Timestamp, now: Timestamp) -> bool {
    &&& elapsed_mins(an_hour_after(now), created_at) == elapsed_mins(now, created_at) + 60
    &&& elapsed_mins(now, created_at) >= 0 || elapsed_mins(an_hour_after(now), created_at) <= 0
}

/// The billing window comes back every hour: wherever an hour counts as sixty minutes, the same
/// windows are open at an instant and an hour after it, and nowhere else are they all the same.
pub proof fn billing_window_is_hourly(created_at: Timestamp, now: Timestamp)
    requires
        created_at.wf(),
        now.wf(),
        now.secs + 3600 <= MAX_UNIX_SECS,
    ensures
        an_hour_counts_as_sixty_minutes(created_at, now) <==> forall|window: int|
            in_billing_window(created_at, an_hour_after(now), window) == #[trigger]
                in_billing_window(created_at, now, window),
{
    let later = an_hour_after(now);
    let (m, n) = (elapsed_mins(now, created_at), elapsed_mins(later, created_at));
    if !an_hour_counts_as_sixty_minutes(created_at, now) {
        assert(trunc_rem(m, 60) != trunc_rem(n, 60));
        let window = 60 - trunc_rem(m, 60);
        let other = 60 - trunc_rem(n, 60);
        assert(in_billing_window(created_at, now, window));
        assert(in_billing_window(created_at, later, other));
        assert(in_billing_window(created_at, now, other) == (window <= other));
    }
}

/// An hour counts as sixty minutes where the same leap seconds are counted up to an instant and
/// up to an hour after it, from the creation on or up to it.
pub proof fn an_hour_is_sixty_minutes_but_for_leap_seconds(created_at: Timestamp, now: Timestamp)
    requires
        created_at.wf(),
        now.wf(),
        now.secs + 3600 <= MAX_UNIX_SECS,
        uncounted_leap_seconds(an_hour_after(now), created_at) == uncounted_leap_seconds(
            now,
            created_at,
        ),
        elapsed_nanos(now, created_at) >= 0 || elapsed_nanos(an_hour_after(now), created_at) <= 0,
    ensures
        an_hour_counts_as_sixty_minutes(created_at, now),
{
    assert(elapsed_nanos(an_hour_after(now), created_at) == elapsed_nanos(now, created_at) + 3600
        * 1_000_000_000);
}

/// The counts by state add up to the number of nodes.
pub proof fn state_counts_add_up(nodes: Seq<NodeView>)
    ensures
        nodes.filter(is_provisioning()).len() + nodes.filter(is_busy()).len() + nodes.filter(
            is_idle(),
        ).len() + nodes.filter(is_deregistering()).len() + nodes.filter(is_draining()).len()
            + nodes.filter(is_removing()).len() == nodes.len(),
    decreases nodes.len(),
{
    reveal(Seq::filter);
    if nodes.len() > 0 {
        state_counts_add_up(nodes.drop_last());
    }
}

pub open spec fn has_name(name: Seq<char>) -> spec_fn(NodeView) -> bool {
    |n: NodeView| n.server_name == name
}

pub open spec fn is_idle_and_named(name: Seq<char>) -> spec_fn(NodeView) -> bool {
    |n: NodeView| n.server_name == name && n.state is Idle
}

/// The values by node are those of the nodes there are: each node has an age, each idle one an
/// idle time, and no name is left over from a node that is gone.
pub proof fn gauges_name_the_nodes(nodes: Seq<NodeView>, now: Timestamp, name: Seq<char>)
    ensures
        age_gauges(nodes, now).contains_key(name) <==> nodes.any(has_name(name)),
        idle_gauges(nodes, now).contains_key(name) <==> nodes.any(is_idle_and_named(name)),
    decreases nodes.len(),
{
    if nodes.len() > 0 {
        let init = nodes.drop_last();
        gauges_name_the_nodes(init, now, name);
        lemma_any_of_last(nodes, has_name(name));
        lemma_any_of_last(nodes, is_idle_and_named(name));
    }
}

/// The value at a name is the age of the last node of that name, and its idle time if it is idle:
/// where names are distinct, each node has its own.
pub proof fn gauges_hold_ages_and_idle_times(nodes: Seq<NodeView>, now: Timestamp, i: int)
    requires
        0 <= i < nodes.len(),
        nodes[i].wf(),
        now.wf(),
        forall|j: int|
            i < j < nodes.len() ==> (#[trigger] nodes[j]).server_name != nodes[i].server_name,
    ensures
        age_gauges(nodes, now).contains_key(nodes[i].server_name),
        age_gauges(nodes, now)[nodes[i].server_name] == at_least_zero(
            elapsed_secs(now, nodes[i].created_at),
        ),
        nodes[i].state matches NodeStateView::Idle { idle_since, .. } ==> {
            &&& idle_gauges(nodes, now).contains_key(nodes[i].server_name)
            &&& idle_gauges(nodes, now)[nodes[i].server_name] == at_least_zero(
                elapsed_secs(now, idle_since),
            )
        },
    decreases nodes.len(),
{
    let init = nodes.drop_last();
    if i < nodes.len() - 1 {
        assert(init[i] == nodes[i]);
        assert forall|j: int| i < j < init.len() implies (#[trigger] init[j]).server_name
            != init[i].server_name by {
            assert(nodes[j].server_name != nodes[i].server_name);
        }
        gauges_hold_ages_and_idle_times(init, now, i);
        assert(nodes[nodes.len() - 1].server_name != nodes[i].server_name);
    }
}

proof fn lemma_any_of_last(nodes: Seq<NodeView>, p: spec_fn(NodeView) -> bool)
    requires
        nodes.len() > 0,
    ensures
        nodes.any(p) <==> nodes.drop_last().any(p) || p(nodes.last()),
{
    let init = nodes.drop_last();
    if nodes.any(p) {
        let i = choose|i: int| 0 <= i < nodes.len() && p(nodes[i]);
        if i < nodes.len() - 1 {
            assert(p(init[i]));
        }
    }
    if init.any(p) {
        let i = choose|i: int| 0 <= i < init.len() && p(init[i]);
        assert(p(nodes[i]));
    }
}

} // verus!
