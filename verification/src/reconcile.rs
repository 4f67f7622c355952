//! From what the outside services report to the managed nodes.

use vstd::prelude::*;

use crate::gitea::{Job, JobView, Runner, RunnerView};
use crate::hetzner::{HetznerServer, ServerView};
use crate::k8s::{K8sNode, K8sNodeView, K8sPod, K8sPodView};
use crate::node_manager::{all_wf, ManagedNode, NodeState, NodeStateView, NodeView};
use crate::seqs::{
    find_first, find_first_is_the_first, lemma_filter_map_last, lemma_filter_map_take,
    lemma_find_first_at, lemma_find_first_none, lemma_take_one_more, lemma_views_push, views,
};
use crate::time::{elapsed_nanos, elapsed_secs, Duration, Span, Timestamp};

verus! {

/// What is to be done besides keeping track of nodes.
#[derive(Debug, Clone, Copy, PartialEq, Eq, Structural)]
pub enum ReconcileAction {
    DeleteStuckServer { server_id: i64 },
}

pub open spec fn node_named(name: Seq<char>) -> spec_fn(K8sNodeView) -> bool {
    |n: K8sNodeView| n.name == name
}

pub open spec fn pod_on(node_name: Seq<char>) -> spec_fn(K8sPodView) -> bool {
    |p: K8sPodView| p.node_name == Some(node_name)
}

pub open spec fn runner_named(name: Seq<char>) -> spec_fn(RunnerView) -> bool {
    |r: RunnerView| r.name == name
}

/// The runner of the first pod on the node, if a runner of that name is registered.
pub open spec fn runner_on(
    node_name: Seq<char>,
    pods: Seq<K8sPodView>,
    runners: Seq<RunnerView>,
) -> Option<RunnerView> {
    match find_first(pods, pod_on(node_name)) {
        Some(pod) => find_first(runners, runner_named(pod.name)),
        None => None,
    }
}

/// A runner is busy if Gitea says so or if a job in progress names it.
pub open spec fn runner_is_busy(runner: RunnerView, in_progress: Seq<JobView>) -> bool {
    runner.busy || exists|i: int|
        0 <= i < in_progress.len() && (#[trigger] in_progress[i]).runner_id == Some(runner.id)
}

/// What the outside services report at one moment.
pub struct Observation {
    pub k8s_nodes: Seq<K8sNodeView>,
    pub pods: Seq<K8sPodView>,
    pub runners: Seq<RunnerView>,
    pub in_progress: Seq<JobView>,
    pub now: Timestamp,
    pub timeout: Duration,
}

/// The state of a server's node; `None` if the server is stuck: no node of its name has joined
/// the cluster in the time allowed.
pub open spec fn observed_state(server: ServerView, seen: Observation) -> Option<NodeStateView> {
    match find_first(seen.k8s_nodes, node_named(server.name)) {
        Some(node) => Some(
            match runner_on(node.name, seen.pods, seen.runners) {
                Some(runner) => if runner_is_busy(runner, seen.in_progress) {
                    NodeStateView::Busy {
                        k8s_node_name: node.name,
                        gitea_runner_id: runner.id,
                        gitea_runner_name: runner.name,
                    }
                } else {
                    NodeStateView::Idle {
                        k8s_node_name: node.name,
                        gitea_runner_id: runner.id,
                        gitea_runner_name: runner.name,
                        idle_since: seen.now,
                    }
                },
                None => if node.unschedulable {
                    NodeStateView::Draining { k8s_node_name: node.name }
                } else {
                    NodeStateView::Provisioning
                },
            },
        ),
        None => if elapsed_nanos(seen.now, server.created) < seen.timeout.total() {
            Some(NodeStateView::Provisioning)
        } else {
            None
        },
    }
}

/// The managed node of a server that is not stuck.
pub open spec fn observed_node(seen: Observation) -> spec_fn(ServerView) -> Option<NodeView> {
    |server: ServerView|
        match observed_state(server, seen) {
            Some(state) => Some(
                NodeView {
                    server_id: server.id,
                    server_name: server.name,
                    created_at: server.created,
                    state,
                },
            ),
            None => None,
        }
}

/// The deletion of a server that is stuck.
pub open spec fn stuck_action(seen: Observation) -> spec_fn(ServerView) -> Option<ReconcileAction> {
    |server: ServerView|
        match observed_state(server, seen) {
            Some(_) => None,
            None => Some(ReconcileAction::DeleteStuckServer { server_id: server.id }),
        }
}

fn find_node<'a>(nodes: &'a [K8sNode], name: &String) -> (r: Option<&'a K8sNode>)
    ensures
        match r {
            Some(node) => find_first(views(nodes@), node_named(name@)) == Some(node@),
            None => find_first(views(nodes@), node_named(name@)) is None,
        },
{
    let ghost p = node_named(name@);
    let mut i: usize = 0;
    while i < nodes.len()
        invariant
            0 <= i <= nodes@.len(),
            p == node_named(name@),
            forall|j: int| 0 <= j < i ==> !p(#[trigger] views(nodes@)[j]),
        decreases nodes@.len() - i,
    {
        assert(views(nodes@)[i as int] == nodes@[i as int]@);
        if nodes[i].name == *name {
            proof {
                lemma_find_first_at(views(nodes@), p, i as int);
            }
            return Some(&nodes[i]);
        }
        i = i + 1;
    }
    proof {
        lemma_find_first_none(views(nodes@), p);
    }
    None
}

fn find_pod<'a>(pods: &'a [K8sPod], node_name: &String) -> (r: Option<&'a K8sPod>)
    ensures
        match r {
            Some(pod) => find_first(views(pods@), pod_on(node_name@)) == Some(pod@),
            None => find_first(views(pods@), pod_on(node_name@)) is None,
        },
{
    let ghost p = pod_on(node_name@);
    let mut i: usize = 0;
    while i < pods.len()
        invariant
            0 <= i <= pods@.len(),
            p == pod_on(node_name@),
            forall|j: int| 0 <= j < i ==> !p(#[trigger] views(pods@)[j]),
        decreases pods@.len() - i,
    {
        assert(views(pods@)[i as int] == pods@[i as int]@);
        let here = match &pods[i].node_name {
            Some(on) => *on == *node_name,
            None => false,
        };
        if here {
            proof {
                lemma_find_first_at(views(pods@), p, i as int);
            }
            return Some(&pods[i]);
        }
        i = i + 1;
    }
    proof {
        lemma_find_first_none(views(pods@), p);
    }
    None
}

fn find_runner<'a>(runners: &'a [Runner], name: &String) -> (r: Option<&'a Runner>)
    ensures
        match r {
            Some(runner) => find_first(views(runners@), runner_named(name@)) == Some(runner@),
            None => find_first(views(runners@), runner_named(name@)) is None,
        },
{
    let ghost p = runner_named(name@);
    let mut i: usize = 0;
    while i < runners.len()
        invariant
            0 <= i <= runners@.len(),
            p == runner_named(name@),
            forall|j: int| 0 <= j < i ==> !p(#[trigger] views(runners@)[j]),
        decreases runners@.len() - i,
    {
        assert(views(runners@)[i as int] == runners@[i as int]@);
        if runners[i].name == *name {
            proof {
                lemma_find_first_at(views(runners@), p, i as int);
            }
            return Some(&runners[i]);
        }
        i = i + 1;
    }
    proof {
        lemma_find_first_none(views(runners@), p);
    }
    None
}

fn has_job(in_progress: &[Job], runner: &Runner) -> (r: bool)
    ensures
        r == exists|i: int|
            0 <= i < in_progress@.len() && (#[trigger] views(in_progress@)[i]).runner_id == Some(
                runner.id,
            ),
{
    let mut i: usize = 0;
    while i < in_progress.len()
        invariant
            0 <= i <= in_progress@.len(),
            forall|j: int|
                0 <= j < i ==> (#[trigger] views(in_progress@)[j]).runner_id != Some(runner.id),
        decreases in_progress@.len() - i,
    {
        assert(views(in_progress@)[i as int] == in_progress@[i as int]@);
        let here = match in_progress[i].runner_id {
            Some(id) => id == runner.id,
            None => false,
        };
        if here {
            return true;
        }
        i = i + 1;
    }
    false
}

/// The state of one server's node, or `None` if the server is stuck.
fn classify(
    server: &HetznerServer,
    k8s_nodes: &[K8sNode],
    pods: &[K8sPod],
    runners: &[Runner],
    in_progress: &[Job],
    now: Timestamp,
    timeout: Duration,
) -> (r: Option<NodeState>)
    requires
        server.created.wf(),
        now.wf(),
        timeout.wf(),
        find_first(views(k8s_nodes@), node_named(server.name@)) is None
            ==> timeout.representable(),
    ensures
        ({
            let seen = Observation {
                k8s_nodes: views(k8s_nodes@),
                pods: views(pods@),
                runners: views(runners@),
                in_progress: views(in_progress@),
                now,
                timeout,
            };
            match r {
                Some(state) => observed_state(server@, seen) == Some(state@),
                None => observed_state(server@, seen) is None,
            }
        }),
        r matches Some(state) ==> state@.wf(),
{
    match find_node(k8s_nodes, &server.name) {
        Some(node) => {
            let runner = match find_pod(pods, &node.name) {
                Some(pod) => find_runner(runners, &pod.name),
                None => None,
            };
            match runner {
                Some(runner) => {
                    if runner.busy || has_job(in_progress, runner) {
                        Some(
                            NodeState::Busy {
                                k8s_node_name: node.name.clone(),
                                gitea_runner_id: runner.id,
                                gitea_runner_name: runner.name.clone(),
                            },
                        )
                    } else {
                        Some(
                            NodeState::Idle {
                                k8s_node_name: node.name.clone(),
                                gitea_runner_id: runner.id,
                                gitea_runner_name: runner.name.clone(),
                                idle_since: now,
                            },
                        )
                    }
                },
                None => {
                    if node.unschedulable {
                        Some(NodeState::Draining { k8s_node_name: node.name.clone() })
                    } else {
                        Some(NodeState::Provisioning)
                    }
                },
            }
        },
        None => {
            let age: Span = now.since(server.created);
            match timeout.to_span() {
                Some(limit) if age.at_least(limit) => None,
                _ => Some(NodeState::Provisioning),
            }
        },
    }
}

/// Work out the managed nodes from what the outside services report.
///
/// A server whose node has joined the cluster is busy, idle, draining or still provisioning,
/// according to its runner. One whose node has not joined is provisioning until the timeout
/// has passed, and is to be deleted after that.
pub fn reconcile(
    hetzner_servers: &[HetznerServer],
    k8s_nodes: &[K8sNode],
    k8s_pods: &[K8sPod],
    runners: &[Runner],
    in_progress_jobs: &[Job],
    now: Timestamp,
    provisioning_timeout: Duration,
) -> (r: (Vec<ManagedNode>, Vec<ReconcileAction>))
    requires
        now.wf(),
        provisioning_timeout.wf(),
        forall|i: int|
            0 <= i < hetzner_servers@.len() ==> (#[trigger] views(
                hetzner_servers@,
            )[i]).created.wf(),
        forall|i: int|
            0 <= i < hetzner_servers@.len() && find_first(
                views(k8s_nodes@),
                node_named((#[trigger] views(hetzner_servers@)[i]).name),
            ) is None ==> provisioning_timeout.representable(),
    ensures
        ({
            let seen = Observation {
                k8s_nodes: views(k8s_nodes@),
                pods: views(k8s_pods@),
                runners: views(runners@),
                in_progress: views(in_progress_jobs@),
                now,
                timeout: provisioning_timeout,
            };
            &&& views(r.0@) == views(hetzner_servers@).filter_map(observed_node(seen))
            &&& r.1@ == views(hetzner_servers@).filter_map(stuck_action(seen))
        }),
        all_wf(views(r.0@)),
{
    let ghost seen = Observation {
        k8s_nodes: views(k8s_nodes@),
        pods: views(k8s_pods@),
        runners: views(runners@),
        in_progress: views(in_progress_jobs@),
        now,
        timeout: provisioning_timeout,
    };
    let ghost servers = views(hetzner_servers@);
    let mut nodes: Vec<ManagedNode> = Vec::new();
    let mut actions: Vec<ReconcileAction> = Vec::new();
    let mut i: usize = 0;
    assert(views(nodes@) =~= servers.take(0).filter_map(observed_node(seen)));
    assert(actions@ =~= servers.take(0).filter_map(stuck_action(seen)));
    while i < hetzner_servers.len()
        invariant
            0 <= i <= hetzner_servers@.len(),
            now.wf(),
            provisioning_timeout.wf(),
            servers == views(hetzner_servers@),
            seen == (Observation {
                k8s_nodes: views(k8s_nodes@),
                pods: views(k8s_pods@),
                runners: views(runners@),
                in_progress: views(in_progress_jobs@),
                now,
                timeout: provisioning_timeout,
            }),
            forall|k: int| 0 <= k < servers.len() ==> (#[trigger] servers[k]).created.wf(),
            forall|k: int|
                0 <= k < servers.len() && find_first(
                    views(k8s_nodes@),
                    node_named((#[trigger] servers[k]).name),
                ) is None ==> provisioning_timeout.representable(),
            all_wf(views(nodes@)),
            views(nodes@) == servers.take(i as int).filter_map(observed_node(seen)),
            actions@ == servers.take(i as int).filter_map(stuck_action(seen)),
        decreases hetzner_servers@.len() - i,
    {
        let server = &hetzner_servers[i];
        assert(servers[i as int] == server@);
        let state = classify(
            server,
            k8s_nodes,
            k8s_pods,
            runners,
            in_progress_jobs,
            now,
            provisioning_timeout,
        );
        let ghost nodes_before = nodes@;
        proof {
            lemma_filter_map_take(servers, observed_node(seen), i as int);
            lemma_filter_map_take(servers, stuck_action(seen), i as int);
        }
        match state {
            Some(state) => {
                let node = ManagedNode {
                    hetzner_server_id: server.id,
                    hetzner_server_name: server.name.clone(),
                    created_at: server.created,
                    state,
                };
                proof {
                    lemma_views_push(nodes_before, node);
                }
                nodes.push(node);
            },
            None => {
                actions.push(ReconcileAction::DeleteStuckServer { server_id: server.id });
            },
        }
        i = i + 1;
    }
    assert(servers.take(i as int) =~= servers);
    (nodes, actions)
}

pub open spec fn node_of_server(id: i64) -> spec_fn(NodeView) -> bool {
    |n: NodeView| n.server_id == id
}

/// A fresh state, given the state that the same server had one iteration before: teardown goes
/// on where it was, and a node that stays idle stays idle since the same instant.
pub open spec fn carried_state(fresh: NodeStateView, before: NodeStateView) -> NodeStateView {
    match before {
        NodeStateView::Deregistering { .. } => before,
        NodeStateView::Draining { .. } => before,
        NodeStateView::Removing => before,
        NodeStateView::Idle { idle_since: since, .. } => match fresh {
            NodeStateView::Idle { k8s_node_name, gitea_runner_id, gitea_runner_name, .. } =>
                NodeStateView::Idle {
                k8s_node_name,
                gitea_runner_id,
                gitea_runner_name,
                idle_since: since,
            },
            _ => fresh,
        },
        _ => fresh,
    }
}

/// A fresh node with what the previous iteration knew of its server.
pub open spec fn carried_node(previous: Seq<NodeView>) -> spec_fn(NodeView) -> NodeView {
    |node: NodeView|
        match find_first(previous, node_of_server(node.server_id)) {
            Some(before) => NodeView { state: carried_state(node.state, before.state), ..node },
            None => node,
        }
}

/// How many seconds it took to provision a node, if it came up since the previous iteration.
pub open spec fn provisioned_in(
    previous: Seq<NodeView>,
    now: Timestamp,
) -> spec_fn(NodeView) -> Option<i64> {
    |node: NodeView|
        match find_first(previous, node_of_server(node.server_id)) {
            Some(before) => if before.state is Provisioning && (node.state is Busy
                || node.state is Idle) {
                Some(elapsed_secs(now, node.created_at) as i64)
            } else {
                None
            },
            None => None,
        }
}

pub open spec fn knows_server(nodes: Seq<NodeView>, id: i64) -> bool {
    exists|i: int| 0 <= i < nodes.len() && (#[trigger] nodes[i]).server_id == id
}

pub open spec fn younger_than(node: NodeView, now: Timestamp, timeout: Duration) -> bool {
    elapsed_nanos(now, node.created_at) < timeout.total()
}

/// The nodes, and after them the previous ones whose server no node is known of and that are
/// being removed or may still come up.
pub open spec fn with_readmitted(
    nodes: Seq<NodeView>,
    previous: Seq<NodeView>,
    now: Timestamp,
    timeout: Duration,
) -> Seq<NodeView>
    decreases previous.len(),
{
    if previous.len() == 0 {
        nodes
    } else {
        let so_far = with_readmitted(nodes, previous.drop_last(), now, timeout);
        let node = previous.last();
        if knows_server(so_far, node.server_id) {
            so_far
        } else if node.state is Removing || (node.state is Provisioning && younger_than(
            node,
            now,
            timeout,
        )) {
            so_far.push(node)
        } else {
            so_far
        }
    }
}

/// The deletion of the previous nodes whose server no node is known of and that did not come up
/// in the time allowed.
pub open spec fn overdue(
    nodes: Seq<NodeView>,
    previous: Seq<NodeView>,
    now: Timestamp,
    timeout: Duration,
) -> Seq<ReconcileAction>
    decreases previous.len(),
{
    if previous.len() == 0 {
        Seq::empty()
    } else {
        let so_far = overdue(nodes, previous.drop_last(), now, timeout);
        let node = previous.last();
        if !knows_server(
            with_readmitted(nodes, previous.drop_last(), now, timeout),
            node.server_id,
        ) && node.state is Provisioning && !younger_than(node, now, timeout) {
            so_far.push(ReconcileAction::DeleteStuckServer { server_id: node.server_id })
        } else {
            so_far
        }
    }
}

fn find_previous<'a>(previous: &'a [ManagedNode], id: i64) -> (r: Option<&'a ManagedNode>)
    ensures
        match r {
            Some(node) => {
                &&& find_first(views(previous@), node_of_server(id)) == Some(node@)
                &&& views(previous@).contains(node@)
            },
            None => find_first(views(previous@), node_of_server(id)) is None,
        },
{
    let ghost p = node_of_server(id);
    let mut i: usize = 0;
    while i < previous.len()
        invariant
            0 <= i <= previous@.len(),
            p == node_of_server(id),
            forall|j: int| 0 <= j < i ==> !p(#[trigger] views(previous@)[j]),
        decreases previous@.len() - i,
    {
        assert(views(previous@)[i as int] == previous@[i as int]@);
        if previous[i].hetzner_server_id == id {
            proof {
                lemma_find_first_at(views(previous@), p, i as int);
            }
            return Some(&previous[i]);
        }
        i = i + 1;
    }
    proof {
        lemma_find_first_none(views(previous@), p);
    }
    None
}

fn has_server(nodes: &Vec<ManagedNode>, id: i64) -> (r: bool)
    ensures
        r == knows_server(views(nodes@), id),
{
    let mut i: usize = 0;
    while i < nodes.len()
        invariant
            0 <= i <= nodes@.len(),
            forall|j: int| 0 <= j < i ==> (#[trigger] views(nodes@)[j]).server_id != id,
        decreases nodes@.len() - i,
    {
        assert(views(nodes@)[i as int] == nodes@[i as int]@);
        if nodes[i].hetzner_server_id == id {
            return true;
        }
        i = i + 1;
    }
    false
}

fn carry_state(fresh: &NodeState, before: &NodeState) -> (r: NodeState)
    ensures
        r@ == carried_state(fresh@, before@),
{
    match before {
        NodeState::Deregistering { .. } => before.clone(),
        NodeState::Draining { .. } => before.clone(),
        NodeState::Removing => before.clone(),
        NodeState::Idle { idle_since: since, .. } => match fresh {
            NodeState::Idle { k8s_node_name, gitea_runner_id, gitea_runner_name, .. } =>
                NodeState::Idle {
                k8s_node_name: k8s_node_name.clone(),
                gitea_runner_id: *gitea_runner_id,
                gitea_runner_name: gitea_runner_name.clone(),
                idle_since: *since,
            },
            _ => fresh.clone(),
        },
        _ => fresh.clone(),
    }
}

/// Carry what the previous iteration knew into freshly reconciled nodes, and return the
/// provisioning times, in seconds, of the nodes that came up since, and the servers to delete.
///
/// - Teardown states are kept: they cannot be told from what the services report.
/// - A node that was idle before stays idle since the same instant.
/// - A node that was being removed is kept until its server is known to be gone, and one that was
///   provisioning is kept until its time has run out: the list of servers lags behind.
pub fn carry_forward_state(
    nodes: &mut Vec<ManagedNode>,
    previous: &[ManagedNode],
    now: Timestamp,
    provisioning_timeout: Duration,
) -> (r: (Vec<i64>, Vec<ReconcileAction>))
    requires
        all_wf(views(old(nodes)@)),
        all_wf(views(previous@)),
        now.wf(),
        provisioning_timeout.wf(),
        provisioning_timeout.representable(),
    ensures
        ({
            let fresh = views(old(nodes)@);
            let before = views(previous@);
            let carried = fresh.map_values(carried_node(before));
            &&& views(final(nodes)@) == with_readmitted(
                carried,
                before,
                now,
                provisioning_timeout,
            )
            &&& r.0@ == fresh.filter_map(provisioned_in(before, now))
            &&& r.1@ == overdue(carried, before, now, provisioning_timeout)
        }),
        all_wf(views(final(nodes)@)),
{
    let ghost fresh = views(nodes@);
    let ghost before = views(previous@);
    let ghost carried = fresh.map_values(carried_node(before));
    let mut provisioning_secs: Vec<i64> = Vec::new();
    let mut i: usize = 0;
    assert(provisioning_secs@ =~= fresh.take(0).filter_map(provisioned_in(before, now)));
    while i < nodes.len()
        invariant
            0 <= i <= nodes@.len(),
            nodes@.len() == fresh.len(),
            now.wf(),
            all_wf(fresh),
            all_wf(before),
            all_wf(views(nodes@)),
            before == views(previous@),
            carried == fresh.map_values(carried_node(before)),
            forall|k: int| 0 <= k < i ==> (#[trigger] views(nodes@)[k]) == carried[k],
            forall|k: int| i <= k < nodes@.len() ==> (#[trigger] views(nodes@)[k]) == fresh[k],
            provisioning_secs@ == fresh.take(i as int).filter_map(provisioned_in(before, now)),
        decreases nodes@.len() - i,
    {
        let ghost nodes_before = nodes@;
        assert(views(nodes@)[i as int] == fresh[i as int]);
        proof {
            lemma_filter_map_take(fresh, provisioned_in(before, now), i as int);
        }
        match find_previous(previous, nodes[i].hetzner_server_id) {
            Some(prev) => {
                let came_up = match (&nodes[i].state, &prev.state) {
                    (NodeState::Busy { .. }, NodeState::Provisioning) => true,
                    (NodeState::Idle { .. }, NodeState::Provisioning) => true,
                    _ => false,
                };
                if came_up {
                    assert(fresh[i as int].wf());
                    provisioning_secs.push(now.seconds_since(nodes[i].created_at));
                }
                let state = carry_state(&nodes[i].state, &prev.state);
                assert(prev@.wf());
                nodes[i].state = state;
            },
            None => {},
        }
        assert forall|k: int| 0 <= k < i + 1 implies (#[trigger] views(nodes@)[k]) == carried[k] by {
            if k < i {
                assert(views(nodes_before)[k] == views(nodes@)[k]);
            }
        }
        assert forall|k: int| i + 1 <= k < nodes@.len() implies (#[trigger] views(nodes@)[k])
            == fresh[k] by {
            assert(views(nodes_before)[k] == views(nodes@)[k]);
        }
        assert forall|k: int| 0 <= k < nodes@.len() implies (#[trigger] views(nodes@)[k]).wf() by {
            assert(views(nodes_before)[k].wf());
            if k != i {
                assert(views(nodes_before)[k] == views(nodes@)[k]);
            }
        }
        i = i + 1;
    }
    assert(fresh.take(i as int) =~= fresh);
    assert(views(nodes@) =~= carried);

    let mut actions: Vec<ReconcileAction> = Vec::new();
    let mut j: usize = 0;
    assert(before.take(0) =~= Seq::<NodeView>::empty());
    while j < previous.len()
        invariant
            0 <= j <= previous@.len(),
            now.wf(),
            provisioning_timeout.wf(),
            provisioning_timeout.representable(),
            before == views(previous@),
            all_wf(before),
            all_wf(views(nodes@)),
            views(nodes@) == with_readmitted(
                carried,
                before.take(j as int),
                now,
                provisioning_timeout,
            ),
            actions@ == overdue(carried, before.take(j as int), now, provisioning_timeout),
        decreases previous@.len() - j,
    {
        let prev = &previous[j];
        assert(before[j as int] == prev@);
        assert(before[j as int].wf());
        proof {
            lemma_take_one_more(before, j as int);
        }
        if !has_server(nodes, prev.hetzner_server_id) {
            match prev.state {
                NodeState::Removing => {
                    let node = prev.clone();
                    proof {
                        lemma_views_push(nodes@, node);
                    }
                    nodes.push(node);
                },
                NodeState::Provisioning => {
                    let age: Span = now.since(prev.created_at);
                    match provisioning_timeout.to_span() {
                        Some(limit) if age.at_least(limit) => {
                            actions.push(
                                ReconcileAction::DeleteStuckServer {
                                    server_id: prev.hetzner_server_id,
                                },
                            );
                        },
                        _ => {
                            let node = prev.clone();
                            proof {
                                lemma_views_push(nodes@, node);
                            }
                            nodes.push(node);
                        },
                    }
                },
                _ => {},
            }
        }
        j = j + 1;
    }
    assert(before.take(j as int) =~= before);
    (provisioning_secs, actions)
}

/// Every server that is reported becomes either a node or a deletion.
pub proof fn every_server_is_accounted_for(servers: Seq<ServerView>, seen: Observation)
    ensures
        servers.filter_map(observed_node(seen)).len() + servers.filter_map(
            stuck_action(seen),
        ).len() == servers.len(),
    decreases servers.len(),
{
    if servers.len() == 0 {
        assert(servers.filter_map(observed_node(seen)) =~= Seq::<NodeView>::empty());
        assert(servers.filter_map(stuck_action(seen)) =~= Seq::<ReconcileAction>::empty());
    } else {
        every_server_is_accounted_for(servers.drop_last(), seen);
        lemma_filter_map_last(servers, observed_node(seen));
        lemma_filter_map_last(servers, stuck_action(seen));
    }
}

/// Reconciling has a server deleted as stuck exactly if no node of its name has joined the cluster
/// and its age has reached the timeout.
pub proof fn stuck_servers_are_overdue_and_absent(server: ServerView, seen: Observation)
    ensures
        stuck_action(seen)(server) is Some <==> find_first(
            seen.k8s_nodes,
            node_named(server.name),
        ) is None && elapsed_nanos(seen.now, server.created) >= seen.timeout.total(),
        stuck_action(seen)(server) is Some <==> observed_node(seen)(server) is None,
        stuck_action(seen)(server) matches Some(action) ==> action
            == (ReconcileAction::DeleteStuckServer { server_id: server.id }),
{
}

/// A node that was leaving is still leaving, at the same stage, whatever the services report of
/// its server; and a node that was idle and still is has been idle since the same instant.
pub proof fn teardown_and_idle_time_are_carried_over(
    node: NodeView,
    previous: Seq<NodeView>,
)
    ensures
        find_first(previous, node_of_server(node.server_id)) matches Some(before) ==> {
            let carried = carried_node(previous)(node);
            &&& before.state.in_teardown() ==> carried.state == before.state
            &&& before.state is Idle && node.state is Idle ==> {
                &&& carried.state is Idle
                &&& carried.state->idle_since == before.state->idle_since
                &&& carried.state->Idle_k8s_node_name == node.state->Idle_k8s_node_name
                &&& carried.state->Idle_gitea_runner_id == node.state->Idle_gitea_runner_id
                &&& carried.state->Idle_gitea_runner_name == node.state->Idle_gitea_runner_name
            }
            &&& !before.state.in_teardown() && !(before.state is Idle && node.state is Idle)
                ==> carried == node
        },
        find_first(previous, node_of_server(node.server_id)) is None ==> carried_node(previous)(
            node,
        ) == node,
        carried_node(previous)(node).server_id == node.server_id,
        carried_node(previous)(node).server_name == node.server_name,
        carried_node(previous)(node).created_at == node.created_at,
{
}

/// Without a previous iteration there is nothing to carry over.
pub proof fn nothing_is_carried_over_from_nothing(
    nodes: Seq<NodeView>,
    now: Timestamp,
    timeout: Duration,
)
    ensures
        with_readmitted(
            nodes.map_values(carried_node(Seq::empty())),
            Seq::empty(),
            now,
            timeout,
        ) == nodes,
        nodes.filter_map(provisioned_in(Seq::empty(), now)) == Seq::<i64>::empty(),
        overdue(nodes, Seq::empty(), now, timeout) == Seq::<ReconcileAction>::empty(),
    decreases nodes.len(),
{
    let none = Seq::<NodeView>::empty();
    assert(nodes.map_values(carried_node(none)) =~= nodes) by {
        assert forall|i: int| 0 <= i < nodes.len() implies carried_node(none)(
            #[trigger] nodes[i],
        ) == nodes[i] by {
            assert(find_first(none, node_of_server(nodes[i].server_id)) is None);
        }
    }
    if nodes.len() == 0 {
        assert(nodes.filter_map(provisioned_in(none, now)) =~= Seq::<i64>::empty());
    } else {
        nothing_is_carried_over_from_nothing(nodes.drop_last(), now, timeout);
        lemma_filter_map_last(nodes, provisioned_in(none, now));
        assert(find_first(none, node_of_server(nodes.last().server_id)) is None);
    }
}

/// A node that is being removed is not lost from sight until its server is known to be gone, and
/// one that is provisioning is not until its time has run out, though the list of servers does
/// not show it.
pub proof fn unseen_nodes_are_kept(
    nodes: Seq<NodeView>,
    previous: Seq<NodeView>,
    now: Timestamp,
    timeout: Duration,
    i: int,
)
    requires
        0 <= i < previous.len(),
        previous[i].state is Removing || (previous[i].state is Provisioning && younger_than(
            previous[i],
            now,
            timeout,
        )),
    ensures
        knows_server(with_readmitted(nodes, previous, now, timeout), previous[i].server_id),
    decreases previous.len(),
{
    let init = previous.drop_last();
    let so_far = with_readmitted(nodes, init, now, timeout);
    let all = with_readmitted(nodes, previous, now, timeout);
    let id = previous[i].server_id;
    if i < previous.len() - 1 {
        assert(init[i] == previous[i]);
        unseen_nodes_are_kept(nodes, init, now, timeout, i);
    }
    if knows_server(so_far, id) {
        let k = choose|k: int| 0 <= k < so_far.len() && (#[trigger] so_far[k]).server_id == id;
        assert(all[k] == so_far[k]);
    } else {
        assert(all.last().server_id == id);
    }
}

/// The nodes that were known before come first, as they were; what comes after was known in the
/// previous iteration.
pub proof fn readmission_only_adds(
    nodes: Seq<NodeView>,
    previous: Seq<NodeView>,
    now: Timestamp,
    timeout: Duration,
)
    ensures
        nodes.is_prefix_of(with_readmitted(nodes, previous, now, timeout)),
        forall|k: int|
            nodes.len() <= k < with_readmitted(nodes, previous, now, timeout).len()
                ==> previous.contains(
                #[trigger] with_readmitted(nodes, previous, now, timeout)[k],
            ),
    decreases previous.len(),
{
    if previous.len() > 0 {
        let init = previous.drop_last();
        let so_far = with_readmitted(nodes, init, now, timeout);
        let all = with_readmitted(nodes, previous, now, timeout);
        readmission_only_adds(nodes, init, now, timeout);
        assert(nodes =~= all.take(nodes.len() as int));
        assert forall|k: int| nodes.len() <= k < all.len() implies previous.contains(
            #[trigger] all[k],
        ) by {
            if k < so_far.len() {
                assert(all[k] == so_far[k]);
                let m = choose|m: int| 0 <= m < init.len() && init[m] == so_far[k];
                assert(previous[m] == all[k]);
            } else {
                assert(previous.last() == all[k]);
            }
        }
    } else {
        assert(nodes =~= nodes.take(nodes.len() as int));
    }
}

/// No two nodes stand for the same server.
pub open spec fn own_servers(nodes: Seq<NodeView>) -> bool {
    forall|i: int, j: int|
        0 <= i < j < nodes.len() ==> (#[trigger] nodes[i]).server_id != (
        #[trigger] nodes[j]).server_id
}

pub open spec fn own_ids(servers: Seq<ServerView>) -> bool {
    forall|i: int, j: int|
        0 <= i < j < servers.len() ==> (#[trigger] servers[i]).id != (#[trigger] servers[j]).id
}

/// If no server is reported twice, no two nodes stand for the same server, whatever was known
/// before.
pub proof fn nodes_have_their_own_servers(
    servers: Seq<ServerView>,
    seen: Observation,
    previous: Seq<NodeView>,
)
    requires
        own_ids(servers),
    ensures
        own_servers(servers.filter_map(observed_node(seen))),
        own_servers(
            with_readmitted(
                servers.filter_map(observed_node(seen)).map_values(carried_node(previous)),
                previous,
                seen.now,
                seen.timeout,
            ),
        ),
{
    let fresh = servers.filter_map(observed_node(seen));
    let carried = fresh.map_values(carried_node(previous));
    lemma_observed_ids(servers, seen);
    assert(own_servers(carried)) by {
        assert forall|i: int, j: int| 0 <= i < j < carried.len() implies (
        #[trigger] carried[i]).server_id != (#[trigger] carried[j]).server_id by {
            assert(fresh[i].server_id != fresh[j].server_id);
        }
    }
    lemma_readmitted_ids(carried, previous, seen.now, seen.timeout);
}

proof fn lemma_observed_ids(servers: Seq<ServerView>, seen: Observation)
    requires
        own_ids(servers),
    ensures
        own_servers(servers.filter_map(observed_node(seen))),
        forall|k: int|
            0 <= k < servers.filter_map(observed_node(seen)).len() ==> exists|i: int|
                0 <= i < servers.len() && (#[trigger] servers[i]).id == (
                #[trigger] servers.filter_map(observed_node(seen))[k]).server_id,
    decreases servers.len(),
{
    let fresh = servers.filter_map(observed_node(seen));
    if servers.len() == 0 {
        assert(fresh =~= Seq::<NodeView>::empty());
    } else {
        let init = servers.drop_last();
        let rest = init.filter_map(observed_node(seen));
        assert(own_ids(init)) by {
            assert forall|i: int, j: int| 0 <= i < j < init.len() implies (
            #[trigger] init[i]).id != (#[trigger] init[j]).id by {
                assert(servers[i].id != servers[j].id);
            }
        }
        lemma_observed_ids(init, seen);
        lemma_filter_map_last(servers, observed_node(seen));
        assert forall|k: int| 0 <= k < fresh.len() implies exists|i: int|
            0 <= i < servers.len() && (#[trigger] servers[i]).id == (
            #[trigger] fresh[k]).server_id by {
            if k < rest.len() {
                assert(rest[k] == fresh[k]);
                let i = choose|i: int|
                    0 <= i < init.len() && (#[trigger] init[i]).id == rest[k].server_id;
                assert(servers[i].id == fresh[k].server_id);
            } else {
                assert(servers[servers.len() - 1].id == fresh[k].server_id);
            }
        }
        assert forall|i: int, j: int| 0 <= i < j < fresh.len() implies (
        #[trigger] fresh[i]).server_id != (#[trigger] fresh[j]).server_id by {
            assert(rest[i] == fresh[i]);
            if j < rest.len() {
                assert(rest[j] == fresh[j]);
            } else {
                let m = choose|m: int|
                    0 <= m < init.len() && (#[trigger] init[m]).id == rest[i].server_id;
                assert(servers[m].id != servers[servers.len() - 1].id);
            }
        }
    }
}

proof fn lemma_readmitted_ids(
    nodes: Seq<NodeView>,
    previous: Seq<NodeView>,
    now: Timestamp,
    timeout: Duration,
)
    requires
        own_servers(nodes),
    ensures
        own_servers(with_readmitted(nodes, previous, now, timeout)),
    decreases previous.len(),
{
    if previous.len() > 0 {
        lemma_readmitted_ids(nodes, previous.drop_last(), now, timeout);
    }
}

/// What is deleted because it did not come up in time is not among the nodes, and each such
/// server was provisioning before; given that no two nodes stood for the same server before.
pub proof fn overdue_nodes_are_dropped(
    nodes: Seq<NodeView>,
    previous: Seq<NodeView>,
    now: Timestamp,
    timeout: Duration,
)
    requires
        own_servers(previous),
    ensures
        forall|k: int|
            0 <= k < overdue(nodes, previous, now, timeout).len() ==> {
                let ReconcileAction::DeleteStuckServer { server_id } = #[trigger] overdue(
                    nodes,
                    previous,
                    now,
                    timeout,
                )[k];
                &&& !knows_server(with_readmitted(nodes, previous, now, timeout), server_id)
                &&& exists|i: int|
                    0 <= i < previous.len() && (#[trigger] previous[i]).server_id == server_id
                        && previous[i].state is Provisioning && !younger_than(
                        previous[i],
                        now,
                        timeout,
                    )
            },
    decreases previous.len(),
{
    if previous.len() > 0 {
        let init = previous.drop_last();
        let last = previous.last();
        let so_far = with_readmitted(nodes, init, now, timeout);
        let all = with_readmitted(nodes, previous, now, timeout);
        let earlier = overdue(nodes, init, now, timeout);
        let actions = overdue(nodes, previous, now, timeout);
        assert(own_servers(init)) by {
            assert forall|i: int, j: int| 0 <= i < j < init.len() implies (
            #[trigger] init[i]).server_id != (#[trigger] init[j]).server_id by {
                assert(previous[i].server_id != previous[j].server_id);
            }
        }
        overdue_nodes_are_dropped(nodes, init, now, timeout);
        assert forall|k: int| 0 <= k < actions.len() implies ({
            let ReconcileAction::DeleteStuckServer { server_id } = #[trigger] actions[k];
            &&& !knows_server(all, server_id)
            &&& exists|i: int|
                0 <= i < previous.len() && (#[trigger] previous[i]).server_id == server_id
                    && previous[i].state is Provisioning && !younger_than(
                    previous[i],
                    now,
                    timeout,
                )
        }) by {
            let ReconcileAction::DeleteStuckServer { server_id } = actions[k];
            if k < earlier.len() {
                assert(earlier[k] == actions[k]);
                let i = choose|i: int|
                    0 <= i < init.len() && (#[trigger] init[i]).server_id == server_id
                        && init[i].state is Provisioning && !younger_than(init[i], now, timeout);
                assert(previous[i] == init[i]);
                assert(previous[i].server_id != previous[previous.len() - 1].server_id);
                if knows_server(all, server_id) {
                    let m = choose|m: int|
                        0 <= m < all.len() && (#[trigger] all[m]).server_id == server_id;
                    assert(m < so_far.len());
                    assert(so_far[m] == all[m]);
                }
            } else {
                assert(previous[previous.len() - 1].server_id == server_id);
            }
        }
    }
}

proof fn lemma_stuck_ids(servers: Seq<ServerView>, seen: Observation)
    requires
        own_ids(servers),
    ensures
        forall|k: int|
            0 <= k < servers.filter_map(stuck_action(seen)).len() ==> {
                let ReconcileAction::DeleteStuckServer { server_id } =
                    #[trigger] servers.filter_map(stuck_action(seen))[k];
                &&& !knows_server(servers.filter_map(observed_node(seen)), server_id)
                &&& exists|i: int| 0 <= i < servers.len() && (#[trigger] servers[i]).id == server_id
            },
    decreases servers.len(),
{
    let fresh = servers.filter_map(observed_node(seen));
    let actions = servers.filter_map(stuck_action(seen));
    if servers.len() == 0 {
        assert(actions =~= Seq::<ReconcileAction>::empty());
    } else {
        let init = servers.drop_last();
        let last = servers.len() - 1;
        let rest = init.filter_map(observed_node(seen));
        let earlier = init.filter_map(stuck_action(seen));
        assert(own_ids(init)) by {
            assert forall|i: int, j: int| 0 <= i < j < init.len() implies (
            #[trigger] init[i]).id != (#[trigger] init[j]).id by {
                assert(servers[i].id != servers[j].id);
            }
        }
        lemma_stuck_ids(init, seen);
        lemma_observed_ids(init, seen);
        lemma_filter_map_last(servers, observed_node(seen));
        lemma_filter_map_last(servers, stuck_action(seen));
        assert forall|k: int| 0 <= k < actions.len() implies ({
            let ReconcileAction::DeleteStuckServer { server_id } = #[trigger] actions[k];
            &&& !knows_server(fresh, server_id)
            &&& exists|i: int| 0 <= i < servers.len() && (#[trigger] servers[i]).id == server_id
        }) by {
            let ReconcileAction::DeleteStuckServer { server_id } = actions[k];
            if k < earlier.len() {
                assert(earlier[k] == actions[k]);
                let i = choose|i: int|
                    0 <= i < init.len() && (#[trigger] init[i]).id == server_id;
                assert(servers[i].id == server_id);
                assert(servers[i].id != servers[last].id);
                if knows_server(fresh, server_id) {
                    let m = choose|m: int|
                        0 <= m < fresh.len() && (#[trigger] fresh[m]).server_id == server_id;
                    if m < rest.len() {
                        assert(rest[m] == fresh[m]);
                    }
                }
            } else {
                assert(servers[last].id == server_id);
                if knows_server(fresh, server_id) {
                    let m = choose|m: int|
                        0 <= m < fresh.len() && (#[trigger] fresh[m]).server_id == server_id;
                    assert(rest[m] == fresh[m]);
                    let i = choose|i: int|
                        0 <= i < init.len() && (#[trigger] init[i]).id == rest[m].server_id;
                    assert(servers[i].id != servers[last].id);
                }
            }
        }
    }
}

proof fn lemma_readmitted_states(
    nodes: Seq<NodeView>,
    previous: Seq<NodeView>,
    now: Timestamp,
    timeout: Duration,
)
    ensures
        forall|k: int|
            nodes.len() <= k < with_readmitted(nodes, previous, now, timeout).len() ==> (
            #[trigger] with_readmitted(nodes, previous, now, timeout)[k]).state is Removing
                || with_readmitted(nodes, previous, now, timeout)[k].state is Provisioning,
    decreases previous.len(),
{
    if previous.len() > 0 {
        let so_far = with_readmitted(nodes, previous.drop_last(), now, timeout);
        let all = with_readmitted(nodes, previous, now, timeout);
        lemma_readmitted_states(nodes, previous.drop_last(), now, timeout);
        assert forall|k: int| nodes.len() <= k < all.len() implies (#[trigger] all[k]).state is Removing
            || all[k].state is Provisioning by {
            if k < so_far.len() {
                assert(all[k] == so_far[k]);
            }
        }
    }
}

/// Cleaning up does not take away a node that runs jobs or could: the servers that are deleted
/// as stuck have no node, or one that is provisioning or being removed. Given that no server is
/// reported twice and that no two nodes stood for the same server before.
pub proof fn stuck_servers_run_no_jobs(
    servers: Seq<ServerView>,
    seen: Observation,
    previous: Seq<NodeView>,
    action: ReconcileAction,
)
    requires
        own_ids(servers),
        own_servers(previous),
        ({
            let carried = servers.filter_map(observed_node(seen)).map_values(
                carried_node(previous),
            );
            servers.filter_map(stuck_action(seen)).contains(action) || overdue(
                carried,
                previous,
                seen.now,
                seen.timeout,
            ).contains(action)
        }),
    ensures
        ({
            let ReconcileAction::DeleteStuckServer { server_id } = action;
            let nodes = with_readmitted(
                servers.filter_map(observed_node(seen)).map_values(carried_node(previous)),
                previous,
                seen.now,
                seen.timeout,
            );
            forall|i: int|
                0 <= i < nodes.len() && (#[trigger] nodes[i]).server_id == server_id
                    ==> nodes[i].state is Removing || nodes[i].state is Provisioning
        }),
{
    let ReconcileAction::DeleteStuckServer { server_id } = action;
    let fresh = servers.filter_map(observed_node(seen));
    let carried = fresh.map_values(carried_node(previous));
    let stuck = servers.filter_map(stuck_action(seen));
    let late = overdue(carried, previous, seen.now, seen.timeout);
    let nodes = with_readmitted(carried, previous, seen.now, seen.timeout);
    lemma_stuck_ids(servers, seen);
    overdue_nodes_are_dropped(carried, previous, seen.now, seen.timeout);
    lemma_readmitted_states(carried, previous, seen.now, seen.timeout);
    readmission_only_adds(carried, previous, seen.now, seen.timeout);
    assert forall|i: int|
        0 <= i < nodes.len() && (#[trigger] nodes[i]).server_id == server_id implies nodes[i].state is Removing
        || nodes[i].state is Provisioning by {
        if late.contains(action) {
            let k = choose|k: int| 0 <= k < late.len() && late[k] == action;
            assert(!knows_server(nodes, server_id));
        } else {
            let k = choose|k: int| 0 <= k < stuck.len() && stuck[k] == action;
            assert(!knows_server(fresh, server_id));
            if i < carried.len() {
                assert(carried[i] == nodes.take(carried.len() as int)[i]);
                assert(fresh[i].server_id == carried[i].server_id);
            }
        }
    }
}

/// The nodes that come out of reconciling hold valid times if what went in does.
pub proof fn reconciled_nodes_are_wf(
    servers: Seq<ServerView>,
    seen: Observation,
    previous: Seq<NodeView>,
)
    requires
        forall|i: int| 0 <= i < servers.len() ==> (#[trigger] servers[i]).created.wf(),
        all_wf(previous),
        seen.now.wf(),
    ensures
        all_wf(
            with_readmitted(
                servers.filter_map(observed_node(seen)).map_values(carried_node(previous)),
                previous,
                seen.now,
                seen.timeout,
            ),
        ),
{
    let fresh = servers.filter_map(observed_node(seen));
    let carried = fresh.map_values(carried_node(previous));
    let nodes = with_readmitted(carried, previous, seen.now, seen.timeout);
    lemma_observed_wf(servers, seen);
    readmission_only_adds(carried, previous, seen.now, seen.timeout);
    assert forall|i: int| 0 <= i < nodes.len() implies (#[trigger] nodes[i]).wf() by {
        if i < carried.len() {
            assert(nodes.take(carried.len() as int)[i] == carried[i]);
            assert(fresh[i].wf());
            let at = find_first_is_the_first(previous, node_of_server(fresh[i].server_id));
            if find_first(previous, node_of_server(fresh[i].server_id)) is Some {
                assert(previous[at].wf());
            }
        } else {
            assert(previous.contains(nodes[i]));
            let k = choose|k: int| 0 <= k < previous.len() && previous[k] == nodes[i];
            assert(previous[k].wf());
        }
    }
}

proof fn lemma_observed_wf(servers: Seq<ServerView>, seen: Observation)
    requires
        forall|i: int| 0 <= i < servers.len() ==> (#[trigger] servers[i]).created.wf(),
        seen.now.wf(),
    ensures
        all_wf(servers.filter_map(observed_node(seen))),
    decreases servers.len(),
{
    let fresh = servers.filter_map(observed_node(seen));
    if servers.len() == 0 {
        assert(fresh =~= Seq::<NodeView>::empty());
    } else {
        let init = servers.drop_last();
        let rest = init.filter_map(observed_node(seen));
        assert forall|i: int| 0 <= i < init.len() implies (#[trigger] init[i]).created.wf() by {
            assert(init[i] == servers[i]);
        }
        lemma_observed_wf(init, seen);
        lemma_filter_map_last(servers, observed_node(seen));
        assert(servers[servers.len() - 1] == servers.last());
        assert forall|i: int| 0 <= i < fresh.len() implies (#[trigger] fresh[i]).wf() by {
            if i < rest.len() {
                assert(rest[i] == fresh[i]);
            }
        }
    }
}

/// Carrying over a second time from the same previous nodes, at the same time, changes nothing
/// more and returns the same; given that no two of them stood for the same server.
pub proof fn carrying_over_twice_is_carrying_over_once(
    fresh: Seq<NodeView>,
    previous: Seq<NodeView>,
    now: Timestamp,
    timeout: Duration,
)
    requires
        own_servers(previous),
    ensures
        ({
            let carried = fresh.map_values(carried_node(previous));
            let once = with_readmitted(carried, previous, now, timeout);
            let again = once.map_values(carried_node(previous));
            &&& with_readmitted(again, previous, now, timeout) == once
            &&& once.filter_map(provisioned_in(previous, now)) == fresh.filter_map(
                provisioned_in(previous, now),
            )
            &&& overdue(again, previous, now, timeout) == overdue(carried, previous, now, timeout)
        }),
{
    let carried = fresh.map_values(carried_node(previous));
    let once = with_readmitted(carried, previous, now, timeout);
    let again = once.map_values(carried_node(previous));
    readmission_only_adds(carried, previous, now, timeout);
    lemma_readmitted_states(carried, previous, now, timeout);
    assert forall|k: int| carried.len() <= k < once.len() implies find_first(
        previous,
        node_of_server((#[trigger] once[k]).server_id),
    ) == Some(once[k]) by {
        assert(previous.contains(once[k]));
        let m = choose|m: int| 0 <= m < previous.len() && previous[m] == once[k];
        lemma_found_by_id(previous, m);
    }
    assert(again =~= once) by {
        assert forall|k: int| 0 <= k < once.len() implies carried_node(previous)(
            #[trigger] once[k],
        ) == once[k] by {
            if k < carried.len() {
                assert(once.take(carried.len() as int)[k] == carried[k]);
                assert(carried[k] == carried_node(previous)(fresh[k]));
            }
        }
    }
    lemma_no_more_readmitted(carried, previous, now, timeout, previous.len() as int);
    lemma_same_overdue(carried, previous, now, timeout, previous.len() as int);
    assert(previous.take(previous.len() as int) =~= previous);
    assert forall|k: int| 0 <= k < fresh.len() implies #[trigger] once[k] == carried_node(previous)(
        fresh[k],
    ) by {
        assert(once.take(carried.len() as int)[k] == carried[k]);
    }
    lemma_same_provisioning_times(fresh, once, previous, now);
}

/// Where no two nodes stand for the same server, a node is found by its server.
proof fn lemma_found_by_id(nodes: Seq<NodeView>, i: int)
    requires
        own_servers(nodes),
        0 <= i < nodes.len(),
    ensures
        find_first(nodes, node_of_server(nodes[i].server_id)) == Some(nodes[i]),
{
    let p = node_of_server(nodes[i].server_id);
    assert forall|j: int| 0 <= j < i implies !p(#[trigger] nodes[j]) by {
        assert(nodes[j].server_id != nodes[i].server_id);
    }
    lemma_find_first_at(nodes, p, i);
}

proof fn lemma_no_more_readmitted(
    carried: Seq<NodeView>,
    previous: Seq<NodeView>,
    now: Timestamp,
    timeout: Duration,
    n: int,
)
    requires
        0 <= n <= previous.len(),
    ensures
        ({
            let once = with_readmitted(carried, previous, now, timeout);
            with_readmitted(once, previous.take(n), now, timeout) == once
        }),
    decreases n,
{
    if n > 0 {
        lemma_no_more_readmitted(carried, previous, now, timeout, n - 1);
        lemma_take_one_more(previous, n - 1);
        let node = previous[n - 1];
        if node.state is Removing || (node.state is Provisioning && younger_than(
            node,
            now,
            timeout,
        )) {
            unseen_nodes_are_kept(carried, previous, now, timeout, n - 1);
        }
    }
}

/// A server that is known in the end and was not known after the first `n` of the previous nodes
/// is that of a later one which was readmitted.
proof fn lemma_known_later(
    carried: Seq<NodeView>,
    previous: Seq<NodeView>,
    now: Timestamp,
    timeout: Duration,
    n: int,
    id: i64,
)
    requires
        0 <= n <= previous.len(),
        knows_server(with_readmitted(carried, previous, now, timeout), id),
        !knows_server(with_readmitted(carried, previous.take(n), now, timeout), id),
    ensures
        exists|m: int|
            n <= m < previous.len() && (#[trigger] previous[m]).server_id == id && (
            previous[m].state is Removing || younger_than(previous[m], now, timeout)),
    decreases previous.len() - n,
{
    if n == previous.len() {
        assert(previous.take(n) =~= previous);
    } else {
        lemma_take_one_more(previous, n);
        let so_far = with_readmitted(carried, previous.take(n), now, timeout);
        let next = with_readmitted(carried, previous.take(n + 1), now, timeout);
        if knows_server(next, id) {
            let k = choose|k: int| 0 <= k < next.len() && (#[trigger] next[k]).server_id == id;
            if k < so_far.len() {
                assert(so_far[k] == next[k]);
            }
            assert(previous[n].server_id == id);
        } else {
            lemma_known_later(carried, previous, now, timeout, n + 1, id);
        }
    }
}

proof fn lemma_same_overdue(
    carried: Seq<NodeView>,
    previous: Seq<NodeView>,
    now: Timestamp,
    timeout: Duration,
    n: int,
)
    requires
        own_servers(previous),
        0 <= n <= previous.len(),
    ensures
        ({
            let once = with_readmitted(carried, previous, now, timeout);
            overdue(once, previous.take(n), now, timeout) == overdue(
                carried,
                previous.take(n),
                now,
                timeout,
            )
        }),
    decreases n,
{
    if n > 0 {
        let once = with_readmitted(carried, previous, now, timeout);
        let node = previous[n - 1];
        let so_far = with_readmitted(carried, previous.take(n - 1), now, timeout);
        lemma_same_overdue(carried, previous, now, timeout, n - 1);
        lemma_no_more_readmitted(carried, previous, now, timeout, n - 1);
        lemma_take_one_more(previous, n - 1);
        if node.state is Provisioning && !younger_than(node, now, timeout) {
            if knows_server(so_far, node.server_id) {
                lemma_stays_known(carried, previous, now, timeout, n - 1, node.server_id);
            } else if knows_server(once, node.server_id) {
                lemma_known_later(carried, previous, now, timeout, n - 1, node.server_id);
                let m = choose|m: int|
                    n - 1 <= m < previous.len() && (#[trigger] previous[m]).server_id
                        == node.server_id && (previous[m].state is Removing || younger_than(
                        previous[m],
                        now,
                        timeout,
                    ));
                if m > n - 1 {
                    assert(previous[n - 1].server_id != previous[m].server_id);
                }
            }
        }
    }
}

proof fn lemma_stays_known(
    carried: Seq<NodeView>,
    previous: Seq<NodeView>,
    now: Timestamp,
    timeout: Duration,
    n: int,
    id: i64,
)
    requires
        0 <= n <= previous.len(),
        knows_server(with_readmitted(carried, previous.take(n), now, timeout), id),
    ensures
        knows_server(with_readmitted(carried, previous, now, timeout), id),
    decreases previous.len() - n,
{
    if n == previous.len() {
        assert(previous.take(n) =~= previous);
    } else {
        lemma_take_one_more(previous, n);
        let so_far = with_readmitted(carried, previous.take(n), now, timeout);
        let next = with_readmitted(carried, previous.take(n + 1), now, timeout);
        let k = choose|k: int| 0 <= k < so_far.len() && (#[trigger] so_far[k]).server_id == id;
        assert(next[k] == so_far[k]);
        lemma_stays_known(carried, previous, now, timeout, n + 1, id);
    }
}

/// Carrying over does not change how long a node took to come up, and the nodes that are
/// readmitted have not come up.
proof fn lemma_same_provisioning_times(
    fresh: Seq<NodeView>,
    once: Seq<NodeView>,
    previous: Seq<NodeView>,
    now: Timestamp,
)
    requires
        fresh.len() <= once.len(),
        forall|k: int|
            0 <= k < fresh.len() ==> #[trigger] once[k] == carried_node(previous)(fresh[k]),
        forall|k: int|
            fresh.len() <= k < once.len() ==> find_first(
                previous,
                node_of_server((#[trigger] once[k]).server_id),
            ) == Some(once[k]) && (once[k].state is Removing || once[k].state is Provisioning),
    ensures
        once.filter_map(provisioned_in(previous, now)) == fresh.filter_map(
            provisioned_in(previous, now),
        ),
    decreases once.len(),
{
    let f = provisioned_in(previous, now);
    if once.len() == 0 {
        assert(once =~= fresh);
    } else {
        let last = once.len() - 1;
        let init = once.drop_last();
        lemma_filter_map_last(once, f);
        assert(once[last] == once.last());
        if fresh.len() == once.len() {
            lemma_filter_map_last(fresh, f);
            let rest = fresh.drop_last();
            assert forall|k: int| 0 <= k < rest.len() implies #[trigger] init[k] == carried_node(
                previous,
            )(rest[k]) by {
                assert(once[k] == carried_node(previous)(fresh[k]));
            }
            lemma_same_provisioning_times(rest, init, previous, now);
            assert(once[last] == carried_node(previous)(fresh[last]));
        } else {
            assert forall|k: int| 0 <= k < fresh.len() implies #[trigger] init[k] == carried_node(
                previous,
            )(fresh[k]) by {
                assert(once[k] == init[k]);
            }
            assert forall|k: int| fresh.len() <= k < init.len() implies find_first(
                previous,
                node_of_server((#[trigger] init[k]).server_id),
            ) == Some(init[k]) && (init[k].state is Removing || init[k].state is Provisioning) by {
                assert(once[k] == init[k]);
            }
            lemma_same_provisioning_times(fresh, init, previous, now);
        }
    }
}

/// A previous node whose server no node is known of and that is being removed or may still come
/// up.
pub open spec fn is_readmitted(
    nodes: Seq<NodeView>,
    now: Timestamp,
    timeout: Duration,
) -> spec_fn(NodeView) -> bool {
    |n: NodeView|
        !knows_server(nodes, n.server_id) && (n.state is Removing || (n.state is Provisioning
            && younger_than(n, now, timeout)))
}

/// A previous node whose server no node is known of and that did not come up in the time allowed.
pub open spec fn is_overdue(
    nodes: Seq<NodeView>,
    now: Timestamp,
    timeout: Duration,
) -> spec_fn(NodeView) -> bool {
    |n: NodeView|
        !knows_server(nodes, n.server_id) && n.state is Provisioning && !younger_than(
            n,
            now,
            timeout,
        )
}

/// The deletion of a node's server.
pub open spec fn deletion() -> spec_fn(NodeView) -> ReconcileAction {
    |n: NodeView| ReconcileAction::DeleteStuckServer { server_id: n.server_id }
}

/// Where no two previous nodes stood for the same server, the nodes after carrying over are the
/// nodes and after them the previous ones that are readmitted, and the deletions are those of the
/// previous ones that are overdue, in their order.
pub proof fn carrying_over_selects_previous_nodes(
    nodes: Seq<NodeView>,
    previous: Seq<NodeView>,
    now: Timestamp,
    timeout: Duration,
)
    requires
        own_servers(previous),
    ensures
        with_readmitted(nodes, previous, now, timeout) == nodes + previous.filter(
            is_readmitted(nodes, now, timeout),
        ),
        overdue(nodes, previous, now, timeout) == previous.filter(
            is_overdue(nodes, now, timeout),
        ).map_values(deletion()),
    decreases previous.len(),
{
    reveal(Seq::filter);
    let p = is_readmitted(nodes, now, timeout);
    let q = is_overdue(nodes, now, timeout);
    if previous.len() == 0 {
        assert(nodes + previous.filter(p) =~= nodes);
        assert(previous.filter(q).map_values(deletion()) =~= Seq::<ReconcileAction>::empty());
    } else {
        let init = previous.drop_last();
        let last = previous.last();
        let so_far = with_readmitted(nodes, init, now, timeout);
        assert(own_servers(init)) by {
            assert forall|i: int, j: int| 0 <= i < j < init.len() implies (
            #[trigger] init[i]).server_id != (#[trigger] init[j]).server_id by {
                assert(previous[i].server_id != previous[j].server_id);
            }
        }
        carrying_over_selects_previous_nodes(nodes, init, now, timeout);
        readmission_only_adds(nodes, init, now, timeout);
        assert(knows_server(so_far, last.server_id) == knows_server(nodes, last.server_id)) by {
            if knows_server(nodes, last.server_id) {
                let k = choose|k: int|
                    0 <= k < nodes.len() && (#[trigger] nodes[k]).server_id == last.server_id;
                assert(so_far[k].server_id == last.server_id);
            }
            if knows_server(so_far, last.server_id) {
                let k = choose|k: int|
                    0 <= k < so_far.len() && (#[trigger] so_far[k]).server_id == last.server_id;
                if k < nodes.len() {
                    assert(nodes[k].server_id == last.server_id);
                } else {
                    let m = choose|m: int| 0 <= m < init.len() && init[m] == so_far[k];
                    assert(previous[m].server_id != previous[previous.len() - 1].server_id);
                }
            }
        }
        assert((nodes + init.filter(p)).push(last) =~= nodes + init.filter(p).push(last));
        assert(init.filter(q).push(last).map_values(deletion()) =~= init.filter(q).map_values(
            deletion(),
        ).push(deletion()(last)));
    }
}

/// Where no two previous nodes stood for the same server, no deletion comes twice out of carrying
/// over.
pub proof fn overdue_nodes_are_deleted_once(
    nodes: Seq<NodeView>,
    previous: Seq<NodeView>,
    now: Timestamp,
    timeout: Duration,
)
    requires
        own_servers(previous),
    ensures
        overdue(nodes, previous, now, timeout).no_duplicates(),
    decreases previous.len(),
{
    if previous.len() > 0 {
        let init = previous.drop_last();
        let last = previous.len() - 1;
        let earlier = overdue(nodes, init, now, timeout);
        let action = ReconcileAction::DeleteStuckServer { server_id: previous[last].server_id };
        assert(own_servers(init)) by {
            assert forall|i: int, j: int| 0 <= i < j < init.len() implies (
            #[trigger] init[i]).server_id != (#[trigger] init[j]).server_id by {
                assert(previous[i].server_id != previous[j].server_id);
            }
        }
        overdue_nodes_are_deleted_once(nodes, init, now, timeout);
        overdue_nodes_are_dropped(nodes, init, now, timeout);
        assert(!earlier.contains(action)) by {
            if earlier.contains(action) {
                let k = choose|k: int| 0 <= k < earlier.len() && earlier[k] == action;
                assert(earlier[k] == action);
                let i = choose|i: int|
                    0 <= i < init.len() && (#[trigger] init[i]).server_id
                        == previous[last].server_id;
                assert(previous[i].server_id != previous[last].server_id);
            }
        }
    }
}

} // verus!
