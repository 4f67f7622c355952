//! What holds of the control loop: of one call, and of any number of calls.

use vstd::prelude::*;

use crate::control_loop::{
    is_in_time, is_late, is_ready, known_nodes, lemma_earlier_nodes_stay, planned, server_of,
    unknown_servers, was_ready, AutoscalerView, ReplyView, RequestView, StageView,
};
use crate::gitea::RunnerView;
use crate::hetzner::ServerView;
use crate::metrics::MetricsView;
use crate::node_manager::{
    all_wf, has_idle, in_billing_window, is_idle, is_in_teardown, is_provisioning,
    is_teardown_candidate, nodes_after_teardown_call, progress_after_teardown_call, scale_up_count,
    NodeStateView, NodeView, TeardownCallView,
};
use crate::reconcile::{
    carried_node, knows_server, node_named, node_of_server, nodes_have_their_own_servers,
    observed_node, overdue, own_ids, own_servers, readmission_only_adds, reconciled_nodes_are_wf,
    stuck_action, stuck_servers_run_no_jobs, unseen_nodes_are_kept, with_readmitted, younger_than,
    Observation, ReconcileAction,
};
use crate::seqs::{
    distinct, distinct_is_exact, find_first, find_first_is_the_first, indices_where_is_exact,
    lemma_filter_all, lemma_filter_map_last, lemma_remove_first_elements, remove_first,
};
use crate::time::{elapsed_nanos, Duration, Timestamp};

verus! {

impl StageView {
    /// The stages at which Gitea is asked.
    pub open spec fn asks_gitea(self) -> bool {
        self is ListWaitingJobs || self is ListQueuedJobs || self is ListInProgressJobs
            || self is ListRunners
    }

    /// The stages at which Hetzner or Kubernetes is asked.
    pub open spec fn asks_the_cluster(self) -> bool {
        self is ListServers || self is ListNodes || self is ListPods
    }

    /// True if the reply is what was asked for.
    pub open spec fn is_answered_by(self, reply: ReplyView) -> bool {
        match self {
            StageView::ListWaitingJobs => reply is Jobs,
            StageView::ListQueuedJobs { .. } => reply is Jobs,
            StageView::ListInProgressJobs { .. } => reply is Jobs,
            StageView::ListRunners { .. } => reply is Runners,
            StageView::ListServers { .. } => reply is Servers,
            StageView::ListNodes { .. } => reply is Nodes,
            StageView::ListPods { .. } => reply is Pods,
            _ => true,
        }
    }

    /// The stages from the last one to the first.
    pub open spec fn stages_left(self) -> nat {
        match self {
            StageView::ListWaitingJobs => 11,
            StageView::ListQueuedJobs { .. } => 10,
            StageView::ListInProgressJobs { .. } => 9,
            StageView::ListRunners { .. } => 8,
            StageView::ListServers { .. } => 7,
            StageView::ListNodes { .. } => 6,
            StageView::ListPods { .. } => 5,
            StageView::DeleteStuckServers { .. } => 4,
            StageView::CreateServers { .. } => 3,
            StageView::StartTeardown { .. } => 2,
            StageView::ContinueTeardown { .. } => 1,
            StageView::Finished { .. } => 0,
        }
    }
}

impl AutoscalerView {
    /// A bound on the calls that are left at the current stage.
    pub open spec fn calls_left(self) -> int {
        match self.stage {
            StageView::DeleteStuckServers { server_ids, .. } => server_ids.len() as int,
            StageView::CreateServers { count, .. } => count,
            StageView::StartTeardown { indices, .. } => indices.len() as int,
            StageView::ContinueTeardown { indices, .. } => 2 * indices.len() + if self.nodes()[
                indices.last()
            ].state is Draining {
                1int
            } else {
                0
            },
            StageView::Finished { .. } => 0,
            _ => 1,
        }
    }
}

/// While Gitea cannot be asked, nothing is done: an iteration changes neither the nodes nor the
/// metrics before Gitea has answered every question, and it ends without an error where Gitea
/// does not answer.
pub proof fn without_gitea_nothing_is_done(a: AutoscalerView, reply: ReplyView, now: Timestamp)
    requires
        a.stage.asks_gitea(),
    ensures
        a.next(reply, now).manager == a.manager,
        a.next(reply, now).ready_servers == a.ready_servers,
        !(a.stage is ListRunners && reply is Runners) ==> a.next(reply, now).metrics == a.metrics,
        !a.stage.is_answered_by(reply) ==> a.next(reply, now) == a.at(
            StageView::Finished { succeeded: true },
        ),
        a.stage.is_answered_by(reply) ==> !(a.next(reply, now).stage is Finished),
{
}

/// Where Hetzner or Kubernetes does not say what there is, the iteration ends with an error, and
/// the nodes stay as they were known.
pub proof fn without_the_cluster_the_iteration_fails(
    a: AutoscalerView,
    reply: ReplyView,
    now: Timestamp,
)
    requires
        a.stage.asks_the_cluster(),
    ensures
        !a.stage.is_answered_by(reply) ==> a.next(reply, now) == a.at(
            StageView::Finished { succeeded: false },
        ),
{
}

/// An iteration that gets past the questions ends without an error, whatever fails after that.
pub proof fn later_failures_do_not_fail_the_iteration(
    a: AutoscalerView,
    reply: ReplyView,
    now: Timestamp,
)
    requires
        !a.stage.asks_gitea(),
        !a.stage.asks_the_cluster(),
        !(a.stage is Finished),
    ensures
        a.next(reply, now).stage matches StageView::Finished { succeeded } ==> succeeded,
{
}

/// An iteration comes to an end: with every reply, the stages that are left become fewer, or the
/// stage stays and the calls that are left at it become fewer.
pub proof fn iterations_come_to_an_end(a: AutoscalerView, reply: ReplyView, now: Timestamp)
    requires
        a.wf(),
        !(a.stage is Finished),
    ensures
        a.next(reply, now).stage.stages_left() < a.stage.stages_left() || (a.next(
            reply,
            now,
        ).stage.stages_left() == a.stage.stages_left() && 0 <= a.next(reply, now).calls_left()
            < a.calls_left()),
{
    if let StageView::ContinueTeardown { now, indices } = a.stage {
        let index = indices.last();
        assert(indices[indices.len() - 1] == index);
        assert(is_in_teardown()(a.nodes()[index]));
    }
}

/// A call comes next exactly as long as the iteration is not over.
pub proof fn there_is_a_next_call(a: AutoscalerView, id: Seq<char>)
    requires
        a.wf(),
    ensures
        a.request(id) is None <==> a.stage is Finished,
{
    match a.stage {
        StageView::StartTeardown { now, indices } => {
            assert(indices[indices.len() - 1] == indices.last());
        },
        StageView::ContinueTeardown { now, indices } => {
            assert(indices[indices.len() - 1] == indices.last());
            assert(is_in_teardown()(a.nodes()[indices.last()]));
        },
        _ => {},
    }
}

/// What the autoscaler was started with never changes.
pub proof fn settings_stay(a: AutoscalerView, reply: ReplyView, now: Timestamp)
    ensures
        a.next(reply, now).config == a.config,
        a.next(reply, now).manager.master_ip == a.manager.master_ip,
        a.next(reply, now).manager.k3s_version == a.manager.k3s_version,
{
}

/// Once the nodes are known, their number only grows by creating servers, and then not beyond
/// the limit.
pub proof fn the_limit_is_kept(a: AutoscalerView, reply: ReplyView, now: Timestamp)
    requires
        a.wf(),
        !(a.stage is ListPods),
    ensures
        a.next(reply, now).nodes().len() > a.nodes().len() ==> a.stage is CreateServers && a.next(
            reply,
            now,
        ).nodes().len() <= a.config.max_nodes,
{
    match a.stage {
        StageView::DeleteStuckServers { server_ids, .. } => {
            lemma_remove_first_elements(a.nodes(), node_of_server(server_ids[0]));
        },
        StageView::StartTeardown { indices, .. } => {
            assert(indices[indices.len() - 1] == indices.last());
        },
        StageView::ContinueTeardown { indices, .. } => {
            assert(indices[indices.len() - 1] == indices.last());
        },
        _ => {},
    }
}

/// The servers that a plan deletes as stuck are those that no node is known of and those whose
/// node is late, each once.
pub proof fn stuck_servers_are_planned_once(
    servers: Seq<ServerView>,
    seen: Observation,
    previous: Seq<NodeView>,
    remembered: Seq<i64>,
)
    ensures
        planned(servers, seen, previous, remembered).stuck.no_duplicates(),
        forall|id: i64| #[trigger]
            planned(servers, seen, previous, remembered).stuck.contains(id) <==> unknown_servers(
                servers,
                seen,
                previous,
            ).contains(id) || late_server(servers, seen, previous, remembered, id),
{
    let known = known_nodes(servers, seen, previous);
    let late = is_late(previous, remembered, seen.now, seen.timeout);
    let first = unknown_servers(servers, seen, previous);
    let second = known.filter(late).map_values(server_of());
    distinct_is_exact(first + second);
    assert forall|id: i64| #[trigger]
        planned(servers, seen, previous, remembered).stuck.contains(id) <==> first.contains(id)
            || late_server(servers, seen, previous, remembered, id) by {
        assert(distinct(first + second).contains(id) <==> (first + second).contains(id));
        lemma_server_of_filtered(known, late, id);
        if (first + second).contains(id) {
            let k = choose|k: int| 0 <= k < (first + second).len() && (first + second)[k] == id;
            if k < first.len() {
                assert(first[k] == id);
            } else {
                assert(second[k - first.len()] == id);
            }
        }
        if first.contains(id) {
            let k = choose|k: int| 0 <= k < first.len() && first[k] == id;
            assert((first + second)[k] == id);
        }
        if second.contains(id) {
            let k = choose|k: int| 0 <= k < second.len() && second[k] == id;
            assert((first + second)[first.len() + k] == id);
        }
    }
}

/// True if a node of the server is known that has not become ready in the time allowed.
pub open spec fn late_server(
    servers: Seq<ServerView>,
    seen: Observation,
    previous: Seq<NodeView>,
    remembered: Seq<i64>,
    id: i64,
) -> bool {
    some_node(
        known_nodes(servers, seen, previous),
        is_late(previous, remembered, seen.now, seen.timeout),
        id,
    )
}

/// True if `p` holds of a node of the server.
pub open spec fn some_node(nodes: Seq<NodeView>, p: spec_fn(NodeView) -> bool, id: i64) -> bool {
    exists|i: int| 0 <= i < nodes.len() && (#[trigger] nodes[i]).server_id == id && p(nodes[i])
}

proof fn lemma_server_of_filtered(nodes: Seq<NodeView>, p: spec_fn(NodeView) -> bool, id: i64)
    ensures
        nodes.filter(p).map_values(server_of()).contains(id) <==> some_node(nodes, p, id),
{
    let chosen = nodes.filter(p);
    let ids = chosen.map_values(server_of());
    if ids.contains(id) {
        let k = choose|k: int| 0 <= k < ids.len() && ids[k] == id;
        lemma_filtered_was_there(nodes, p, k);
        let i = choose|i: int| 0 <= i < nodes.len() && nodes[i] == chosen[k];
        assert(nodes[i].server_id == id);
    }
    if some_node(nodes, p, id) {
        let i = choose|i: int|
            0 <= i < nodes.len() && (#[trigger] nodes[i]).server_id == id && p(nodes[i]);
        nodes.lemma_filter_contains(p, i);
        let k = choose|k: int| 0 <= k < chosen.len() && chosen[k] == nodes[i];
        assert(ids[k] == id);
    }
}

proof fn lemma_filtered_was_there(nodes: Seq<NodeView>, p: spec_fn(NodeView) -> bool, k: int)
    requires
        0 <= k < nodes.filter(p).len(),
    ensures
        p(nodes.filter(p)[k]),
        nodes.contains(nodes.filter(p)[k]),
{
    nodes.lemma_filter_pred(p, k);
    nodes.lemma_filter_contains_rev(p, nodes.filter(p)[k]);
}

/// No server is waited for beyond the time allowed: whatever node the plan goes on with is ready,
/// or once was, or still has time.
pub proof fn nodes_are_ready_or_in_time(
    servers: Seq<ServerView>,
    seen: Observation,
    previous: Seq<NodeView>,
    remembered: Seq<i64>,
    i: int,
)
    requires
        0 <= i < planned(servers, seen, previous, remembered).nodes.len(),
    ensures
        ({
            let node = planned(servers, seen, previous, remembered).nodes[i];
            &&& known_nodes(servers, seen, previous).contains(node)
            &&& node.state is Provisioning ==> younger_than(node, seen.now, seen.timeout)
                || was_ready(previous, remembered, node.server_id)
        }),
{
    lemma_filtered_was_there(
        known_nodes(servers, seen, previous),
        is_in_time(previous, remembered, seen.now, seen.timeout),
        i,
    );
}

/// Every server that is reported is deleted as stuck, or the plan goes on with a node of it that
/// is ready, or once was, or still has time.
pub proof fn servers_come_up_in_time_or_are_deleted(
    servers: Seq<ServerView>,
    seen: Observation,
    previous: Seq<NodeView>,
    remembered: Seq<i64>,
    i: int,
)
    requires
        0 <= i < servers.len(),
    ensures
        ({
            let plan = planned(servers, seen, previous, remembered);
            plan.stuck.contains(servers[i].id) || some_node(
                plan.nodes,
                is_in_time(previous, remembered, seen.now, seen.timeout),
                servers[i].id,
            )
        }),
{
    let plan = planned(servers, seen, previous, remembered);
    let in_time = is_in_time(previous, remembered, seen.now, seen.timeout);
    let fresh = servers.filter_map(observed_node(seen));
    let carried = fresh.map_values(carried_node(previous));
    let known = known_nodes(servers, seen, previous);
    let id = servers[i].id;
    let absent = servers.filter_map(stuck_action(seen));
    let actions = absent + overdue(carried, previous, seen.now, seen.timeout);
    stuck_servers_are_planned_once(servers, seen, previous, remembered);
    lemma_reported_server(servers, seen, i);
    if observed_node(seen)(servers[i]) is None {
        let action = ReconcileAction::DeleteStuckServer { server_id: id };
        let k = choose|k: int| 0 <= k < absent.len() && absent[k] == action;
        assert(actions[k] == action);
        assert(unknown_servers(servers, seen, previous)[k] == id);
    } else {
        readmission_only_adds(carried, previous, seen.now, seen.timeout);
        let k = choose|k: int| 0 <= k < fresh.len() && (#[trigger] fresh[k]).server_id == id;
        assert(carried[k].server_id == id);
        assert(known.take(carried.len() as int)[k] == carried[k]);
        assert(known[k].server_id == id);
        if in_time(known[k]) {
            known.lemma_filter_contains(in_time, k);
            let m = choose|m: int| 0 <= m < plan.nodes.len() && plan.nodes[m] == known[k];
            assert(plan.nodes[m].server_id == id);
        } else {
            assert(late_server(servers, seen, previous, remembered, id));
        }
    }
}

proof fn lemma_reported_server(servers: Seq<ServerView>, seen: Observation, i: int)
    requires
        0 <= i < servers.len(),
    ensures
        observed_node(seen)(servers[i]) is None ==> servers.filter_map(
            stuck_action(seen),
        ).contains(ReconcileAction::DeleteStuckServer { server_id: servers[i].id }),
        observed_node(seen)(servers[i]) is Some ==> knows_server(
            servers.filter_map(observed_node(seen)),
            servers[i].id,
        ),
    decreases servers.len(),
{
    let fresh = servers.filter_map(observed_node(seen));
    let absent = servers.filter_map(stuck_action(seen));
    let init = servers.drop_last();
    let action = ReconcileAction::DeleteStuckServer { server_id: servers[i].id };
    lemma_filter_map_last(servers, observed_node(seen));
    lemma_filter_map_last(servers, stuck_action(seen));
    if i < servers.len() - 1 {
        let rest = init.filter_map(observed_node(seen));
        let earlier = init.filter_map(stuck_action(seen));
        lemma_reported_server(init, seen, i);
        assert(init[i] == servers[i]);
        if observed_node(seen)(servers[i]) is None {
            let k = choose|k: int| 0 <= k < earlier.len() && earlier[k] == action;
            assert(absent[k] == action);
        } else {
            let k = choose|k: int|
                0 <= k < rest.len() && (#[trigger] rest[k]).server_id == servers[i].id;
            assert(fresh[k] == rest[k]);
        }
    } else {
        assert(servers[i] == servers.last());
        if observed_node(seen)(servers[i]) is None {
            assert(absent.last() == action);
            assert(absent[absent.len() - 1] == action);
        } else {
            assert(fresh[fresh.len() - 1].server_id == servers[i].id);
        }
    }
}

/// A node that was more than provisioning once does not become late when it loses its runner:
/// the plan goes on with it, and remembers its server, so that the same holds of the next plan.
pub proof fn ready_nodes_are_kept(
    servers: Seq<ServerView>,
    seen: Observation,
    previous: Seq<NodeView>,
    remembered: Seq<i64>,
    i: int,
)
    requires
        0 <= i < known_nodes(servers, seen, previous).len(),
        is_ready(previous, remembered)(known_nodes(servers, seen, previous)[i]),
    ensures
        ({
            let plan = planned(servers, seen, previous, remembered);
            let node = known_nodes(servers, seen, previous)[i];
            &&& plan.nodes.contains(node)
            &&& plan.ready.contains(node.server_id)
            &&& forall|later: Seq<NodeView>, again: NodeView|
                again.server_id == node.server_id ==> #[trigger] is_ready(later, plan.ready)(again)
        }),
{
    let known = known_nodes(servers, seen, previous);
    let plan = planned(servers, seen, previous, remembered);
    known.lemma_filter_contains(
        is_in_time(previous, remembered, seen.now, seen.timeout),
        i,
    );
    assert(some_node(known, is_ready(previous, remembered), known[i].server_id));
    lemma_server_of_filtered(known, is_ready(previous, remembered), known[i].server_id);
}

/// A late node is provisioning and nothing else: what a plan deletes because it has not become
/// ready in time runs no jobs.
pub proof fn late_nodes_are_provisioning(
    previous: Seq<NodeView>,
    remembered: Seq<i64>,
    now: Timestamp,
    timeout: Duration,
    node: NodeView,
)
    requires
        is_late(previous, remembered, now, timeout)(node),
    ensures
        node.state is Provisioning,
        !younger_than(node, now, timeout),
        !was_ready(previous, remembered, node.server_id),
{
}

/// If no server is reported twice, no two nodes that a plan goes on with stand for the same
/// server.
pub proof fn planned_nodes_have_their_own_servers(
    servers: Seq<ServerView>,
    seen: Observation,
    previous: Seq<NodeView>,
    remembered: Seq<i64>,
)
    requires
        own_ids(servers),
    ensures
        own_servers(planned(servers, seen, previous, remembered).nodes),
{
    nodes_have_their_own_servers(servers, seen, previous);
    lemma_filter_keeps_own_servers(
        known_nodes(servers, seen, previous),
        is_in_time(previous, remembered, seen.now, seen.timeout),
    );
}

proof fn lemma_filter_keeps_own_servers(nodes: Seq<NodeView>, p: spec_fn(NodeView) -> bool)
    requires
        own_servers(nodes),
    ensures
        own_servers(nodes.filter(p)),
    decreases nodes.len(),
{
    reveal(Seq::filter);
    if nodes.len() > 0 {
        let init = nodes.drop_last();
        let rest = init.filter(p);
        let all = nodes.filter(p);
        assert(own_servers(init)) by {
            assert forall|i: int, j: int| 0 <= i < j < init.len() implies (
            #[trigger] init[i]).server_id != (#[trigger] init[j]).server_id by {
                assert(nodes[i].server_id != nodes[j].server_id);
            }
        }
        lemma_filter_keeps_own_servers(init, p);
        assert forall|i: int, j: int| 0 <= i < j < all.len() implies (
        #[trigger] all[i]).server_id != (#[trigger] all[j]).server_id by {
            assert(all[i] == rest[i]);
            if j < rest.len() {
                assert(all[j] == rest[j]);
            } else {
                lemma_filtered_was_there(init, p, i);
                let k = choose|k: int| 0 <= k < init.len() && init[k] == rest[i];
                assert(nodes[k].server_id != nodes[nodes.len() - 1].server_id);
            }
        }
    }
}

/// Deleting the stuck servers of a plan takes away no node that runs jobs or could. Given that
/// no server is reported twice and that no two nodes stood for the same server before.
pub proof fn cleaning_up_spares_nodes_in_use(
    servers: Seq<ServerView>,
    seen: Observation,
    previous: Seq<NodeView>,
    remembered: Seq<i64>,
    i: int,
)
    requires
        own_ids(servers),
        own_servers(previous),
        0 <= i < planned(servers, seen, previous, remembered).nodes.len(),
        planned(servers, seen, previous, remembered).stuck.contains(
            planned(servers, seen, previous, remembered).nodes[i].server_id,
        ),
    ensures
        ({
            let node = planned(servers, seen, previous, remembered).nodes[i];
            node.state is Removing || node.state is Provisioning
        }),
{
    let node = planned(servers, seen, previous, remembered).nodes[i];
    let id = node.server_id;
    let known = known_nodes(servers, seen, previous);
    let carried = servers.filter_map(observed_node(seen)).map_values(carried_node(previous));
    let absent = servers.filter_map(stuck_action(seen));
    let late = overdue(carried, previous, seen.now, seen.timeout);
    stuck_servers_are_planned_once(servers, seen, previous, remembered);
    nodes_are_ready_or_in_time(servers, seen, previous, remembered, i);
    nodes_have_their_own_servers(servers, seen, previous);
    let k = choose|k: int| 0 <= k < known.len() && known[k] == node;
    if unknown_servers(servers, seen, previous).contains(id) {
        let ids = unknown_servers(servers, seen, previous);
        let n = choose|n: int| 0 <= n < ids.len() && ids[n] == id;
        let action = (absent + late)[n];
        if n < absent.len() {
            assert(absent[n] == action);
        } else {
            assert(late[n - absent.len()] == action);
        }
        stuck_servers_run_no_jobs(servers, seen, previous, action);
        assert(known[k].server_id == id);
    } else {
        let p = is_late(previous, remembered, seen.now, seen.timeout);
        let n = choose|n: int|
            0 <= n < known.len() && (#[trigger] known[n]).server_id == id && p(known[n]);
        if n < k {
            assert(known[n].server_id != known[k].server_id);
        } else if k < n {
            assert(known[k].server_id != known[n].server_id);
        }
    }
}

/// A stuck server is deleted once: the server that a call deletes is none of those that are
/// left, whether or not the call succeeds.
pub proof fn stuck_servers_are_deleted_once(a: AutoscalerView, reply: ReplyView, now: Timestamp)
    requires
        a.wf(),
        a.stage is DeleteStuckServers,
    ensures
        a.request(Seq::empty()) == Some(
            RequestView::DeleteStuckServer { server_id: a.stage->server_ids[0] },
        ),
        a.next(reply, now).stage matches StageView::DeleteStuckServers { server_ids, .. }
            ==> server_ids == a.stage->server_ids.drop_first() && !server_ids.contains(
            a.stage->server_ids[0],
        ),
{
    let ids = a.stage->server_ids;
    assert(!ids.drop_first().contains(ids[0])) by {
        if ids.drop_first().contains(ids[0]) {
            let k = choose|k: int| 0 <= k < ids.len() - 1 && ids.drop_first()[k] == ids[0];
            assert(ids[k + 1] == ids[0]);
        }
    }
}

/// Teardown is for nodes that are idle long enough or leaving already: nodes that are busy or
/// provisioning stay as they are while others leave.
pub proof fn teardown_spares_nodes_in_use(
    a: AutoscalerView,
    reply: ReplyView,
    now: Timestamp,
    i: int,
)
    requires
        a.wf(),
        a.stage is StartTeardown || a.stage is ContinueTeardown,
        0 <= i < a.nodes().len(),
        a.nodes()[i].state is Busy || a.nodes()[i].state is Provisioning,
    ensures
        a.next(reply, now).nodes().contains(a.nodes()[i]),
{
    let indices = match a.stage {
        StageView::StartTeardown { indices, .. } => indices,
        StageView::ContinueTeardown { indices, .. } => indices,
        _ => Seq::empty(),
    };
    let index = indices.last();
    let before = a.nodes();
    let after = nodes_after_teardown_call(before, index, reply is Done);
    assert(indices[indices.len() - 1] == index);
    assert(!(before[index].state is Busy) && !(before[index].state is Provisioning)) by {
        if a.stage is ContinueTeardown {
            assert(is_in_teardown()(before[index]));
        }
    }
    assert(a.next(reply, now).nodes() == after);
    if after.len() < before.len() && i > index {
        assert(after[i - 1] == before[i]);
    } else {
        assert(after[i] == before[i]);
    }
}

/// The last of the positions, if there are any.
pub open spec fn teardown_index(stage: StageView) -> int {
    match stage {
        StageView::StartTeardown { indices, .. } => indices.last(),
        StageView::ContinueTeardown { indices, .. } => indices.last(),
        _ => 0,
    }
}

/// A runner is taken from Gitea only if its node is idle for the whole timeout and near the end
/// of an hour that is paid for; a node is drained only after that, taken from the cluster only
/// once it is drained, and its server is deleted only once the node is out of the cluster.
pub proof fn teardown_calls_are_due(a: AutoscalerView, id: Seq<char>, call: TeardownCallView)
    requires
        a.wf(),
        a.request(id) == Some(RequestView::Teardown(call)),
    ensures
        ({
            let node = a.nodes()[teardown_index(a.stage)];
            &&& 0 <= teardown_index(a.stage) < a.nodes().len()
            &&& match call {
                TeardownCallView::DeleteRunner { runner_id } => {
                    &&& a.stage is StartTeardown
                    &&& node.state matches NodeStateView::Idle { gitea_runner_id, idle_since, .. }
                    &&& gitea_runner_id == runner_id
                    &&& elapsed_nanos(a.stage->StartTeardown_now, idle_since)
                        >= a.config.idle_timeout().total()
                    &&& in_billing_window(
                        node.created_at,
                        a.stage->StartTeardown_now,
                        a.config.billing_window_mins,
                    )
                },
                TeardownCallView::DrainNode { node_name } => {
                    &&& node.state matches NodeStateView::Deregistering { k8s_node_name, .. }
                    &&& k8s_node_name == node_name
                },
                TeardownCallView::DeleteNode { node_name } => {
                    &&& node.state matches NodeStateView::Draining { k8s_node_name }
                    &&& k8s_node_name == node_name
                },
                TeardownCallView::DeleteServer { server_id } => {
                    &&& node.state is Removing
                    &&& node.server_id == server_id
                },
            }
        }),
{
    match a.stage {
        StageView::StartTeardown { now, indices } => {
            assert(indices[indices.len() - 1] == indices.last());
        },
        StageView::ContinueTeardown { now, indices } => {
            assert(indices[indices.len() - 1] == indices.last());
            assert(is_in_teardown()(a.nodes()[indices.last()]));
        },
        _ => {},
    }
}

/// The nodes of servers that were created but have not joined yet.
pub open spec fn all_coming_up(nodes: Seq<NodeView>, now: Timestamp, timeout: Duration) -> bool {
    forall|i: int|
        0 <= i < nodes.len() ==> (#[trigger] nodes[i]).state is Provisioning && younger_than(
            nodes[i],
            now,
            timeout,
        )
}

/// Servers that were created for waiting jobs still count in the next iteration, though the
/// cluster does not know their nodes yet and Hetzner lists only some of them: the same jobs are
/// not scaled up for again, and none of the servers is deleted.
pub proof fn servers_that_come_up_are_waited_for(
    servers: Seq<ServerView>,
    seen: Observation,
    previous: Seq<NodeView>,
    remembered: Seq<i64>,
    waiting: int,
    permanent_capacity: int,
    max_nodes: int,
)
    requires
        own_servers(previous),
        all_coming_up(previous, seen.now, seen.timeout),
        own_ids(servers),
        forall|i: int|
            0 <= i < servers.len() ==> {
                &&& knows_server(previous, (#[trigger] servers[i]).id)
                &&& find_first(seen.k8s_nodes, node_named(servers[i].name)) is None
                &&& elapsed_nanos(seen.now, servers[i].created) < seen.timeout.total()
            },
    ensures
        ({
            let plan = planned(servers, seen, previous, remembered);
            &&& plan.nodes.len() == previous.len()
            &&& plan.stuck.len() == 0
            &&& scale_up_count(plan.nodes, waiting, permanent_capacity, max_nodes)
                == scale_up_count(previous, waiting, permanent_capacity, max_nodes)
        }),
{
    let fresh = servers.filter_map(observed_node(seen));
    let carried = fresh.map_values(carried_node(previous));
    let nodes = with_readmitted(carried, previous, seen.now, seen.timeout);
    lemma_all_observed(servers, seen, previous);
    assert(carried =~= fresh) by {
        assert forall|i: int| 0 <= i < fresh.len() implies carried_node(previous)(
            #[trigger] fresh[i],
        ) == fresh[i] by {
            let at = find_first_is_the_first(previous, node_of_server(fresh[i].server_id));
        }
    }
    nodes_have_their_own_servers(servers, seen, previous);
    readmission_only_adds(carried, previous, seen.now, seen.timeout);
    lemma_nothing_overdue(carried, previous, seen.now, seen.timeout);
    assert forall|i: int| 0 <= i < nodes.len() implies (#[trigger] nodes[i]).state is Provisioning
        && knows_server(previous, nodes[i].server_id) && younger_than(
        nodes[i],
        seen.now,
        seen.timeout,
    ) by {
        if i < carried.len() {
            assert(nodes.take(carried.len() as int)[i] == carried[i]);
        } else {
            assert(previous.contains(nodes[i]));
            let k = choose|k: int| 0 <= k < previous.len() && previous[k] == nodes[i];
            assert(previous[k].server_id == nodes[i].server_id);
        }
    }
    assert forall|i: int| 0 <= i < previous.len() implies knows_server(
        nodes,
        (#[trigger] previous[i]).server_id,
    ) by {
        unseen_nodes_are_kept(carried, previous, seen.now, seen.timeout, i);
    }
    let in_time = is_in_time(previous, remembered, seen.now, seen.timeout);
    let late = is_late(previous, remembered, seen.now, seen.timeout);
    assert(forall|i: int| 0 <= i < nodes.len() ==> in_time(#[trigger] nodes[i]));
    assert(forall|i: int| 0 <= i < nodes.len() ==> !late(#[trigger] nodes[i]));
    lemma_filter_all(nodes, in_time);
    lemma_filter_all(nodes, late);
    lemma_same_servers(nodes, previous);
    lemma_all_provisioning(nodes);
    lemma_all_provisioning(previous);
    assert(servers.filter_map(stuck_action(seen)) + overdue(
        carried,
        previous,
        seen.now,
        seen.timeout,
    ) =~= Seq::<ReconcileAction>::empty());
    assert(unknown_servers(servers, seen, previous) + nodes.filter(late).map_values(server_of())
        =~= Seq::<i64>::empty());
}

proof fn lemma_all_observed(servers: Seq<ServerView>, seen: Observation, previous: Seq<NodeView>)
    requires
        forall|i: int|
            0 <= i < servers.len() ==> {
                &&& knows_server(previous, (#[trigger] servers[i]).id)
                &&& find_first(seen.k8s_nodes, node_named(servers[i].name)) is None
                &&& elapsed_nanos(seen.now, servers[i].created) < seen.timeout.total()
            },
    ensures
        servers.filter_map(stuck_action(seen)).len() == 0,
        forall|i: int|
            0 <= i < servers.filter_map(observed_node(seen)).len() ==> (
            #[trigger] servers.filter_map(observed_node(seen))[i]).state is Provisioning
                && knows_server(
                previous,
                servers.filter_map(observed_node(seen))[i].server_id,
            ) && younger_than(
                servers.filter_map(observed_node(seen))[i],
                seen.now,
                seen.timeout,
            ),
    decreases servers.len(),
{
    let fresh = servers.filter_map(observed_node(seen));
    if servers.len() == 0 {
        assert(fresh =~= Seq::<NodeView>::empty());
        assert(servers.filter_map(stuck_action(seen)) =~= Seq::<ReconcileAction>::empty());
    } else {
        let init = servers.drop_last();
        let rest = init.filter_map(observed_node(seen));
        assert forall|i: int| 0 <= i < init.len() implies ({
            &&& knows_server(previous, (#[trigger] init[i]).id)
            &&& find_first(seen.k8s_nodes, node_named(init[i].name)) is None
            &&& elapsed_nanos(seen.now, init[i].created) < seen.timeout.total()
        }) by {
            assert(init[i] == servers[i]);
        }
        lemma_all_observed(init, seen, previous);
        lemma_filter_map_last(servers, observed_node(seen));
        lemma_filter_map_last(servers, stuck_action(seen));
        assert(servers[servers.len() - 1] == servers.last());
        assert forall|i: int| 0 <= i < fresh.len() implies (#[trigger] fresh[i]).state is Provisioning
            && knows_server(previous, fresh[i].server_id) && younger_than(
            fresh[i],
            seen.now,
            seen.timeout,
        ) by {
            if i < rest.len() {
                assert(fresh[i] == rest[i]);
            }
        }
    }
}

proof fn lemma_nothing_overdue(
    nodes: Seq<NodeView>,
    previous: Seq<NodeView>,
    now: Timestamp,
    timeout: Duration,
)
    requires
        all_coming_up(previous, now, timeout),
    ensures
        overdue(nodes, previous, now, timeout).len() == 0,
    decreases previous.len(),
{
    if previous.len() > 0 {
        let init = previous.drop_last();
        assert(all_coming_up(init, now, timeout)) by {
            assert forall|i: int| 0 <= i < init.len() implies (#[trigger] init[i]).state is Provisioning
                && younger_than(init[i], now, timeout) by {
                assert(init[i] == previous[i]);
            }
        }
        lemma_nothing_overdue(nodes, init, now, timeout);
        assert(previous[previous.len() - 1] == previous.last());
    }
}

/// Two lists of nodes that stand for the same servers, each for its own, are equally long.
proof fn lemma_same_servers(a: Seq<NodeView>, b: Seq<NodeView>)
    requires
        own_servers(a),
        own_servers(b),
        forall|i: int| 0 <= i < a.len() ==> knows_server(b, (#[trigger] a[i]).server_id),
        forall|i: int| 0 <= i < b.len() ==> knows_server(a, (#[trigger] b[i]).server_id),
    ensures
        a.len() == b.len(),
{
    let id = |n: NodeView| n.server_id;
    let (x, y) = (a.map_values(id), b.map_values(id));
    assert(x.no_duplicates()) by {
        assert forall|i: int, j: int| 0 <= i < x.len() && 0 <= j < x.len() && i != j implies x[i]
            != x[j] by {
            if i < j {
                assert(a[i].server_id != a[j].server_id);
            } else {
                assert(a[j].server_id != a[i].server_id);
            }
        }
    }
    assert(y.no_duplicates()) by {
        assert forall|i: int, j: int| 0 <= i < y.len() && 0 <= j < y.len() && i != j implies y[i]
            != y[j] by {
            if i < j {
                assert(b[i].server_id != b[j].server_id);
            } else {
                assert(b[j].server_id != b[i].server_id);
            }
        }
    }
    assert(x.to_set() =~= y.to_set()) by {
        assert forall|k: i64| x.to_set().contains(k) <==> y.to_set().contains(k) by {
            if x.contains(k) {
                let i = choose|i: int| 0 <= i < x.len() && x[i] == k;
                assert(knows_server(b, a[i].server_id));
                let j = choose|j: int| 0 <= j < b.len() && (#[trigger] b[j]).server_id == k;
                assert(y[j] == k);
            }
            if y.contains(k) {
                let i = choose|i: int| 0 <= i < y.len() && y[i] == k;
                assert(knows_server(a, b[i].server_id));
                let j = choose|j: int| 0 <= j < a.len() && (#[trigger] a[j]).server_id == k;
                assert(x[j] == k);
            }
        }
    }
    x.unique_seq_to_set();
    y.unique_seq_to_set();
}

proof fn lemma_all_provisioning(nodes: Seq<NodeView>)
    requires
        forall|i: int| 0 <= i < nodes.len() ==> (#[trigger] nodes[i]).state is Provisioning,
    ensures
        nodes.filter(is_provisioning()).len() == nodes.len(),
        nodes.filter(is_idle()).len() == 0,
    decreases nodes.len(),
{
    reveal(Seq::filter);
    if nodes.len() > 0 {
        let init = nodes.drop_last();
        assert forall|i: int| 0 <= i < init.len() implies (#[trigger] init[i]).state is Provisioning by {
            assert(init[i] == nodes[i]);
        }
        lemma_all_provisioning(init);
        assert(nodes[nodes.len() - 1] == nodes.last());
    }
}

/// How a call ended, and when.
pub struct Event {
    pub reply: ReplyView,
    pub now: Timestamp,
}

impl AutoscalerView {
    /// The autoscaler after a number of calls have ended, one after the other.
    pub open spec fn run(self, events: Seq<Event>) -> AutoscalerView
        decreases events.len(),
    {
        if events.len() == 0 {
            self
        } else {
            self.run(events.drop_last()).next(events.last().reply, events.last().now)
        }
    }

    /// The machine can go on with each of the replies when it comes.
    pub open spec fn accepts_all(self, events: Seq<Event>) -> bool
        decreases events.len(),
    {
        events.len() == 0 || {
            &&& self.accepts_all(events.drop_last())
            &&& events.last().now.wf()
            &&& self.run(events.drop_last()).accepts(events.last().reply, events.last().now)
        }
    }

    /// What holds at every stage.
    pub open spec fn base_wf(self) -> bool {
        all_wf(self.nodes()) && self.config.idle_timeout_mins * 60 <= u64::MAX
    }
}

/// What holds at each stage is kept, whatever the reply.
pub proof fn invariant_is_kept(a: AutoscalerView, reply: ReplyView, now: Timestamp)
    requires
        a.wf(),
        now.wf(),
        a.accepts(reply, now),
    ensures
        a.next(reply, now).wf(),
{
    match a.stage {
        StageView::ListPods { waiting, runners, servers, .. } => {
            if let ReplyView::Pods(pods) = reply {
                let seen = a.observation(pods, now);
                let plan = a.plan(pods, now);
                reconciled_nodes_are_wf(servers, seen, a.nodes());
                stuck_servers_are_planned_once(servers, seen, a.nodes(), a.ready_servers);
                let known = known_nodes(servers, seen, a.nodes());
                assert forall|i: int| 0 <= i < plan.nodes.len() implies (
                #[trigger] plan.nodes[i]).wf() by {
                    nodes_are_ready_or_in_time(servers, seen, a.nodes(), a.ready_servers, i);
                    let k = choose|k: int| 0 <= k < known.len() && known[k] == plan.nodes[i];
                    assert(known[k].wf());
                }
                let after = a.with_nodes(plan.nodes).with_ready(plan.ready).with_metrics(
                    MetricsView {
                        provisioning_duration: a.metrics.provisioning_duration
                            + plan.provisioned_in,
                        ..a.metrics
                    },
                );
                lemma_cleaning_up_wf(after, now, waiting, runners, plan.stuck);
            }
        },
        StageView::DeleteStuckServers { now, waiting, runners, server_ids } => {
            let p = node_of_server(server_ids[0]);
            let left = remove_first(a.nodes(), p);
            lemma_remove_first_elements(a.nodes(), p);
            assert forall|k: int| 0 <= k < left.len() implies (#[trigger] left[k]).wf() by {
                let m = choose|m: int| 0 <= m < a.nodes().len() && a.nodes()[m] == left[k];
                assert(a.nodes()[m].wf());
            }
            assert(has_idle(left) ==> has_idle(a.nodes())) by {
                if has_idle(left) {
                    let k = choose|k: int|
                        0 <= k < left.len() && (#[trigger] left[k]).state is Idle;
                    let m = choose|m: int| 0 <= m < a.nodes().len() && a.nodes()[m] == left[k];
                    assert(a.nodes()[m].state is Idle);
                }
            }
            assert(server_ids.drop_first().no_duplicates());
            let after = if reply is Done {
                a.with_nodes(left).with_metrics(a.metrics.server_deleted().scale_up_failed())
            } else {
                a
            };
            lemma_cleaning_up_wf(after, now, waiting, runners, server_ids.drop_first());
        },
        StageView::CreateServers { now, count } => {
            let after = match reply {
                ReplyView::Created(server) => a.with_nodes(
                    a.nodes().push(
                        NodeView {
                            server_id: server.id,
                            server_name: server.name,
                            created_at: server.created,
                            state: NodeStateView::Provisioning,
                        },
                    ),
                ).with_metrics(a.metrics.server_created()),
                _ => a.with_metrics(a.metrics.scale_up_failed()),
            };
            assert(has_idle(after.nodes()) ==> has_idle(a.nodes())) by {
                if has_idle(after.nodes()) {
                    let k = choose|k: int|
                        0 <= k < after.nodes().len() && (
                        #[trigger] after.nodes()[k]).state is Idle;
                    assert(a.nodes()[k].state is Idle);
                }
            }
            lemma_starting_teardown_wf(after, now);
        },
        StageView::StartTeardown { now, indices } => {
            let after = a.torn_down(indices.last(), reply is Done);
            assert(indices[indices.len() - 1] == indices.last());
            lemma_torn_down_wf(a, indices.last(), reply is Done);
            lemma_earlier_nodes_stay(a, indices, reply is Done);
            lemma_continuing_teardown_wf(after, now);
        },
        StageView::ContinueTeardown { now, indices } => {
            let after = a.torn_down(indices.last(), reply is Done);
            assert(indices[indices.len() - 1] == indices.last());
            assert(is_in_teardown()(a.nodes()[indices.last()]));
            lemma_torn_down_wf(a, indices.last(), reply is Done);
            lemma_earlier_nodes_stay(a, indices, reply is Done);
            let state = a.nodes()[indices.last()].state;
            if progress_after_teardown_call(state, reply is Done) is ServerLeft {
                assert forall|k: int| 0 <= k < indices.len() implies 0 <= #[trigger] indices[k]
                    < after.nodes().len() && is_in_teardown()(after.nodes()[indices[k]]) by {
                    if k < indices.len() - 1 {
                        assert(indices.drop_last()[k] == indices[k]);
                    }
                }
            }
        },
        _ => {},
    }
}

proof fn lemma_torn_down_wf(a: AutoscalerView, index: int, succeeded: bool)
    requires
        a.base_wf(),
        0 <= index < a.nodes().len(),
    ensures
        a.torn_down(index, succeeded).base_wf(),
{
    let before = a.nodes();
    let after = nodes_after_teardown_call(before, index, succeeded);
    assert forall|k: int| 0 <= k < after.len() implies (#[trigger] after[k]).wf() by {
        assert(before[k].wf());
        if after.len() < before.len() && k >= index {
            assert(before[k + 1].wf());
        }
    }
}

proof fn lemma_continuing_teardown_wf(a: AutoscalerView, now: Timestamp)
    requires
        a.base_wf(),
        now.wf(),
    ensures
        a.continuing_teardown(now).wf(),
{
    indices_where_is_exact(a.nodes(), is_in_teardown());
}

proof fn lemma_starting_teardown_wf(a: AutoscalerView, now: Timestamp)
    requires
        a.base_wf(),
        now.wf(),
    ensures
        a.starting_teardown(now).wf(),
{
    indices_where_is_exact(
        a.nodes(),
        is_teardown_candidate(now, a.config.idle_timeout(), a.config.billing_window_mins),
    );
    lemma_continuing_teardown_wf(a, now);
}

proof fn lemma_cleaning_up_wf(
    a: AutoscalerView,
    now: Timestamp,
    waiting: int,
    runners: Seq<RunnerView>,
    server_ids: Seq<i64>,
)
    requires
        a.base_wf(),
        a.idle_timeout_fits(),
        now.wf(),
        server_ids.no_duplicates(),
    ensures
        a.cleaning_up(now, waiting, runners, server_ids).wf(),
{
    if server_ids.len() == 0 {
        let told = a.with_metrics(
            MetricsView {
                desired_nodes: (a.nodes().len() + a.needed(waiting, runners)) as u64,
                ..a.metrics
            },
        );
        lemma_starting_teardown_wf(told, now);
    }
}

/// What holds at each stage holds after any number of calls.
pub proof fn invariant_is_kept_throughout(a: AutoscalerView, events: Seq<Event>)
    requires
        a.wf(),
        a.accepts_all(events),
    ensures
        a.run(events).wf(),
    decreases events.len(),
{
    if events.len() > 0 {
        invariant_is_kept_throughout(a, events.drop_last());
        invariant_is_kept(
            a.run(events.drop_last()),
            events.last().reply,
            events.last().now,
        );
    }
}

/// No stage comes back.
pub proof fn stages_do_not_come_back(a: AutoscalerView, events: Seq<Event>)
    requires
        a.wf(),
        a.accepts_all(events),
    ensures
        a.run(events).stage.stages_left() <= a.stage.stages_left(),
    decreases events.len(),
{
    if events.len() > 0 {
        let init = events.drop_last();
        stages_do_not_come_back(a, init);
        invariant_is_kept_throughout(a, init);
        if !(a.run(init).stage is Finished) {
            iterations_come_to_an_end(a.run(init), events.last().reply, events.last().now);
        }
    }
}

/// However an iteration goes on once the nodes are known, there are never more nodes than there
/// were or than the limit allows.
pub proof fn the_limit_is_kept_throughout(a: AutoscalerView, events: Seq<Event>)
    requires
        a.wf(),
        a.accepts_all(events),
        !a.stage.asks_gitea(),
        !a.stage.asks_the_cluster(),
    ensures
        a.run(events).nodes().len() <= a.nodes().len() || a.run(events).nodes().len()
            <= a.config.max_nodes,
        a.run(events).config == a.config,
    decreases events.len(),
{
    if events.len() > 0 {
        let init = events.drop_last();
        the_limit_is_kept_throughout(a, init);
        invariant_is_kept_throughout(a, init);
        stages_do_not_come_back(a, init);
        settings_stay(a.run(init), events.last().reply, events.last().now);
        the_limit_is_kept(a.run(init), events.last().reply, events.last().now);
    }
}

/// Whatever happens during the teardown of other nodes, a node that is busy or provisioning
/// comes out of it as it went in.
pub proof fn nodes_in_use_survive_teardown(a: AutoscalerView, events: Seq<Event>, node: NodeView)
    requires
        a.wf(),
        a.accepts_all(events),
        a.stage is StartTeardown || a.stage is ContinueTeardown,
        node.state is Busy || node.state is Provisioning,
        a.nodes().contains(node),
    ensures
        a.run(events).nodes().contains(node),
    decreases events.len(),
{
    if events.len() > 0 {
        let init = events.drop_last();
        let b = a.run(init);
        nodes_in_use_survive_teardown(a, init, node);
        invariant_is_kept_throughout(a, init);
        stages_do_not_come_back(a, init);
        if !(b.stage is Finished) {
            let i = choose|i: int| 0 <= i < b.nodes().len() && b.nodes()[i] == node;
            teardown_spares_nodes_in_use(b, events.last().reply, events.last().now, i);
        }
    }
}

/// If Gitea stops answering, at whatever question, the iteration ends without an error, and the
/// nodes and the metrics are as they were when it began.
pub proof fn an_iteration_without_gitea_leaves_everything_as_it_was(
    a: AutoscalerView,
    events: Seq<Event>,
)
    requires
        events.len() > 0,
        forall|k: int|
            0 <= k < events.len() ==> (#[trigger] a.at(StageView::ListWaitingJobs).run(
                events.take(k),
            )).stage.asks_gitea(),
        !a.at(StageView::ListWaitingJobs).run(events.drop_last()).stage.is_answered_by(
            events.last().reply,
        ),
    ensures
        a.at(StageView::ListWaitingJobs).run(events) == a.at(
            StageView::Finished { succeeded: true },
        ),
{
    let begun = a.at(StageView::ListWaitingJobs);
    let init = events.drop_last();
    assert(init =~= events.take(events.len() - 1));
    assert forall|k: int| 0 <= k <= init.len() implies (#[trigger] begun.run(
        init.take(k),
    )).stage.asks_gitea() by {
        assert(init.take(k) =~= events.take(k));
    }
    lemma_only_the_stage_changes(begun, init);
    without_gitea_nothing_is_done(begun.run(init), events.last().reply, events.last().now);
}

proof fn lemma_only_the_stage_changes(a: AutoscalerView, events: Seq<Event>)
    requires
        forall|k: int|
            0 <= k <= events.len() ==> (#[trigger] a.run(events.take(k))).stage.asks_gitea(),
    ensures
        a.run(events) == a.at(a.run(events).stage),
        a.run(events).stage.asks_gitea(),
    decreases events.len(),
{
    assert(events.take(events.len() as int) =~= events);
    assert(a.run(events.take(events.len() as int)).stage.asks_gitea());
    if events.len() > 0 {
        let init = events.drop_last();
        assert forall|k: int| 0 <= k <= init.len() implies (#[trigger] a.run(
            init.take(k),
        )).stage.asks_gitea() by {
            assert(init.take(k) =~= events.take(k));
        }
        lemma_only_the_stage_changes(a, init);
        settings_stay(a.run(init), events.last().reply, events.last().now);
        without_gitea_nothing_is_done(a.run(init), events.last().reply, events.last().now);
    }
}

/// The stuck servers are deleted in turn, one call for each, whatever the calls return.
pub proof fn stuck_servers_are_deleted_in_turn(
    a: AutoscalerView,
    events: Seq<Event>,
    id: Seq<char>,
)
    requires
        a.wf(),
        a.stage is DeleteStuckServers,
        events.len() <= a.stage->server_ids.len(),
    ensures
        events.len() < a.stage->server_ids.len() ==> a.run(events).request(id) == Some(
            RequestView::DeleteStuckServer { server_id: a.stage->server_ids[events.len() as int] },
        ),
        events.len() == a.stage->server_ids.len() ==> !(a.run(events).stage is DeleteStuckServers),
{
    lemma_stuck_servers_left(a, events);
}

#[verifier::rlimit(50)]
proof fn lemma_stuck_servers_left(a: AutoscalerView, events: Seq<Event>)
    requires
        a.stage is DeleteStuckServers,
        a.stage->server_ids.len() > 0,
        events.len() <= a.stage->server_ids.len(),
    ensures
        events.len() < a.stage->server_ids.len() ==> {
            &&& a.run(events).stage is DeleteStuckServers
            &&& a.run(events).stage->server_ids == a.stage->server_ids.skip(events.len() as int)
        },
        events.len() == a.stage->server_ids.len() ==> !(a.run(events).stage is DeleteStuckServers),
    decreases events.len(),
{
    let ids = a.stage->server_ids;
    if events.len() == 0 {
        assert(ids.skip(0) =~= ids);
    } else {
        let init = events.drop_last();
        lemma_stuck_servers_left(a, init);
        assert(ids.skip(init.len() as int).drop_first() =~= ids.skip(events.len() as int));
    }
}

} // verus!
