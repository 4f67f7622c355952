//! What the nodes are, stated of what the services report.

use vstd::prelude::*;

use crate::gitea::JobView;
use crate::hetzner::ServerView;
use crate::k8s::{K8sNodeView, K8sPodView};
use crate::node_manager::{NodeStateView, NodeView};
use crate::reconcile::{
    carried_node, carrying_over_selects_previous_nodes, is_overdue, is_readmitted, node_named,
    node_of_server, observed_node, observed_state, overdue, own_servers, pod_on, provisioned_in,
    runner_named, stuck_action, with_readmitted, Observation, ReconcileAction,
};
use crate::seqs::{
    find_first, find_first_is_the_first, lemma_filter_is_exact, lemma_find_first_at,
    lemma_find_first_none,
};
use crate::time::{elapsed_nanos, Duration, Timestamp};

verus! {

/// The node at `n` is the first one of the name.
pub open spec fn joined_as(nodes: Seq<K8sNodeView>, name: Seq<char>, n: int) -> bool {
    &&& 0 <= n < nodes.len()
    &&& nodes[n].name == name
    &&& forall|j: int| 0 <= j < n ==> (#[trigger] nodes[j]).name != name
}

/// The pod at `p` is the first one on the node.
pub open spec fn runs_on(pods: Seq<K8sPodView>, node: Seq<char>, p: int) -> bool {
    &&& 0 <= p < pods.len()
    &&& pods[p].node_name == Some(node)
    &&& forall|j: int| 0 <= j < p ==> (#[trigger] pods[j]).node_name != Some(node)
}

/// One of the jobs is given to the runner.
pub open spec fn has_a_job(jobs: Seq<JobView>, runner_id: u64) -> bool {
    exists|j: int| 0 <= j < jobs.len() && (#[trigger] jobs[j]).runner_id == Some(runner_id)
}

/// A server that no node of its name has joined from is provisioning until its age reaches the
/// timeout. From then on it is stuck: it has no node, and is deleted.
pub proof fn servers_have_until_the_timeout_to_join(server: ServerView, seen: Observation)
    requires
        forall|j: int|
            0 <= j < seen.k8s_nodes.len() ==> (#[trigger] seen.k8s_nodes[j]).name != server.name,
    ensures
        ({
            let age = elapsed_nanos(seen.now, server.created);
            let limit = seen.timeout.secs * 1_000_000_000 + seen.timeout.nanos;
            &&& age < limit ==> observed_node(seen)(server) == Some(
                NodeView {
                    server_id: server.id,
                    server_name: server.name,
                    created_at: server.created,
                    state: NodeStateView::Provisioning,
                },
            ) && stuck_action(seen)(server) is None
            &&& age >= limit ==> observed_node(seen)(server) is None && stuck_action(seen)(server)
                == Some(ReconcileAction::DeleteStuckServer { server_id: server.id })
        }),
{
    lemma_find_first_none(seen.k8s_nodes, node_named(server.name));
}

/// A server that a node has joined from is never stuck, whatever its age. Its node carries the
/// server's identity.
pub proof fn servers_that_joined_are_not_stuck(server: ServerView, seen: Observation, n: int)
    requires
        0 <= n < seen.k8s_nodes.len(),
        seen.k8s_nodes[n].name == server.name,
    ensures
        stuck_action(seen)(server) is None,
        observed_node(seen)(server) matches Some(node) && {
            &&& node.server_id == server.id
            &&& node.server_name == server.name
            &&& node.created_at == server.created
            &&& Some(node.state) == observed_state(server, seen)
        },
{
    let at = find_first_is_the_first(seen.k8s_nodes, node_named(server.name));
    assert(node_named(server.name)(seen.k8s_nodes[n]));
}

/// A node that joined and whose first pod's runner is registered is busy exactly if Gitea reports
/// the runner as busy or a job in progress is given to it, whichever of the two it is. Otherwise
/// it is idle, from now on.
pub proof fn runners_are_busy_or_idle(
    server: ServerView,
    seen: Observation,
    n: int,
    p: int,
    r: int,
)
    requires
        joined_as(seen.k8s_nodes, server.name, n),
        runs_on(seen.pods, server.name, p),
        0 <= r < seen.runners.len(),
        seen.runners[r].name == seen.pods[p].name,
        forall|j: int| 0 <= j < r ==> (#[trigger] seen.runners[j]).name != seen.pods[p].name,
    ensures
        ({
            let runner = seen.runners[r];
            let state = observed_state(server, seen);
            &&& runner.busy ==> state is Some && state->0 is Busy
            &&& has_a_job(seen.in_progress, runner.id) ==> state is Some && state->0 is Busy
            &&& state is Some && state->0 is Idle ==> !runner.busy && !has_a_job(
                seen.in_progress,
                runner.id,
            )
            &&& runner.busy || has_a_job(seen.in_progress, runner.id) ==> state == Some(
                NodeStateView::Busy {
                    k8s_node_name: server.name,
                    gitea_runner_id: runner.id,
                    gitea_runner_name: seen.pods[p].name,
                },
            )
            &&& !runner.busy && !has_a_job(seen.in_progress, runner.id) ==> state == Some(
                NodeStateView::Idle {
                    k8s_node_name: server.name,
                    gitea_runner_id: runner.id,
                    gitea_runner_name: seen.pods[p].name,
                    idle_since: seen.now,
                },
            )
        }),
{
    lemma_find_first_at(seen.k8s_nodes, node_named(server.name), n);
    lemma_find_first_at(seen.pods, pod_on(server.name), p);
    lemma_find_first_at(seen.runners, runner_named(seen.pods[p].name), r);
}

/// A node that joined and has no runner yet, for want of a pod or because the pod's runner is not
/// registered, is provisioning; if nothing is scheduled onto it any more, it is draining.
pub proof fn nodes_without_a_runner_come_or_go(
    server: ServerView,
    seen: Observation,
    n: int,
    p: int,
)
    requires
        joined_as(seen.k8s_nodes, server.name, n),
        ({
            ||| forall|j: int|
                0 <= j < seen.pods.len() ==> (#[trigger] seen.pods[j]).node_name != Some(
                    server.name,
                )
            ||| runs_on(seen.pods, server.name, p) && forall|j: int|
                0 <= j < seen.runners.len() ==> (#[trigger] seen.runners[j]).name
                    != seen.pods[p].name
        }),
    ensures
        seen.k8s_nodes[n].unschedulable ==> observed_state(server, seen) == Some(
            NodeStateView::Draining { k8s_node_name: server.name },
        ),
        !seen.k8s_nodes[n].unschedulable ==> observed_state(server, seen) == Some(
            NodeStateView::Provisioning,
        ),
{
    lemma_find_first_at(seen.k8s_nodes, node_named(server.name), n);
    if forall|j: int|
        0 <= j < seen.pods.len() ==> (#[trigger] seen.pods[j]).node_name != Some(server.name) {
        lemma_find_first_none(seen.pods, pod_on(server.name));
    } else {
        lemma_find_first_at(seen.pods, pod_on(server.name), p);
        lemma_find_first_none(seen.runners, runner_named(seen.pods[p].name));
    }
}

/// A job in progress that is given to none of the registered runners changes nothing.
pub proof fn jobs_of_unknown_runners_change_nothing(
    server: ServerView,
    seen: Observation,
    job: JobView,
)
    requires
        forall|j: int|
            0 <= j < seen.runners.len() ==> job.runner_id != Some((#[trigger] seen.runners[j]).id),
    ensures
        observed_state(
            server,
            Observation { in_progress: seen.in_progress.push(job), ..seen },
        ) == observed_state(server, seen),
{
    let more = seen.in_progress.push(job);
    let node = find_first(seen.k8s_nodes, node_named(server.name));
    if let Some(node) = node {
        let pod = find_first(seen.pods, pod_on(node.name));
        if let Some(pod) = pod {
            let at = find_first_is_the_first(seen.runners, runner_named(pod.name));
            if let Some(runner) = find_first(seen.runners, runner_named(pod.name)) {
                assert(seen.runners[at].id == runner.id);
                assert(has_a_job(more, runner.id) == has_a_job(seen.in_progress, runner.id)) by {
                    if has_a_job(more, runner.id) {
                        let j = choose|j: int|
                            0 <= j < more.len() && (#[trigger] more[j]).runner_id == Some(
                                runner.id,
                            );
                        assert(seen.in_progress[j].runner_id == Some(runner.id));
                    }
                    if has_a_job(seen.in_progress, runner.id) {
                        let j = choose|j: int|
                            0 <= j < seen.in_progress.len() && (
                            #[trigger] seen.in_progress[j]).runner_id == Some(runner.id);
                        assert(more[j].runner_id == Some(runner.id));
                    }
                }
            }
        }
    }
}

/// The previous node at `at` is the first one of the server.
pub open spec fn known_as(previous: Seq<NodeView>, id: i64, at: int) -> bool {
    &&& 0 <= at < previous.len()
    &&& previous[at].server_id == id
    &&& forall|j: int| 0 <= j < at ==> (#[trigger] previous[j]).server_id != id
}

/// A node that was leaving goes on leaving at the same stage, whatever is reported. A node that
/// was idle and still is keeps the instant since which it is idle, and nothing else: its names and
/// its runner are the reported ones. Every other node is what is reported.
pub proof fn only_teardown_and_the_idle_instant_are_carried_over(
    node: NodeView,
    previous: Seq<NodeView>,
    at: int,
)
    requires
        known_as(previous, node.server_id, at),
    ensures
        ({
            let before = previous[at].state;
            let carried = carried_node(previous)(node);
            &&& carried.server_id == node.server_id
            &&& carried.server_name == node.server_name
            &&& carried.created_at == node.created_at
            &&& before is Deregistering || before is Draining || before is Removing
                ==> carried.state == before
            &&& before is Idle && node.state is Idle ==> carried.state == (NodeStateView::Idle {
                k8s_node_name: node.state->Idle_k8s_node_name,
                gitea_runner_id: node.state->Idle_gitea_runner_id,
                gitea_runner_name: node.state->Idle_gitea_runner_name,
                idle_since: before->idle_since,
            })
            &&& before is Idle && !(node.state is Idle) ==> carried == node
            &&& before is Busy || before is Provisioning ==> carried == node
        }),
{
    lemma_find_first_at(previous, node_of_server(node.server_id), at);
}

/// A node whose server was not known before is what is reported.
pub proof fn unknown_nodes_are_what_is_reported(node: NodeView, previous: Seq<NodeView>)
    requires
        forall|j: int|
            0 <= j < previous.len() ==> (#[trigger] previous[j]).server_id != node.server_id,
    ensures
        carried_node(previous)(node) == node,
{
    lemma_find_first_none(previous, node_of_server(node.server_id));
}

/// How long a node took to come up is told once: when a node that was provisioning is first seen
/// busy or idle. It is the whole seconds since its server was created.
pub proof fn provisioning_times_are_taken_when_nodes_come_up(
    node: NodeView,
    previous: Seq<NodeView>,
    at: int,
    now: Timestamp,
)
    requires
        known_as(previous, node.server_id, at),
        now.wf(),
        node.created_at.wf(),
    ensures
        provisioned_in(previous, now)(node) is Some <==> previous[at].state is Provisioning && (
        node.state is Busy || node.state is Idle),
        provisioned_in(previous, now)(node) matches Some(secs) ==> {
            let nanos = elapsed_nanos(now, node.created_at);
            &&& nanos >= 0 ==> secs * 1_000_000_000 <= nanos < (secs + 1) * 1_000_000_000
            &&& nanos <= 0 ==> (secs - 1) * 1_000_000_000 < nanos <= secs * 1_000_000_000
        },
{
    lemma_find_first_at(previous, node_of_server(node.server_id), at);
}

/// No provisioning time is told of a node whose server was not known before.
pub proof fn unknown_nodes_have_no_provisioning_time(
    node: NodeView,
    previous: Seq<NodeView>,
    now: Timestamp,
)
    requires
        forall|j: int|
            0 <= j < previous.len() ==> (#[trigger] previous[j]).server_id != node.server_id,
    ensures
        provisioned_in(previous, now)(node) is None,
{
    lemma_find_first_none(previous, node_of_server(node.server_id));
}

/// One more previous node, looked at last: it stays out of the nodes where its server is known
/// already. Otherwise it is taken back in if it is being removed, or if it is provisioning and its
/// age is below the timeout; and its server is deleted if it is provisioning and its age has
/// reached the timeout. A node in any other state is given up.
pub proof fn previous_nodes_are_looked_at_in_turn(
    nodes: Seq<NodeView>,
    previous: Seq<NodeView>,
    last: NodeView,
    now: Timestamp,
    timeout: Duration,
)
    ensures
        ({
            let before = with_readmitted(nodes, previous, now, timeout);
            let after = with_readmitted(nodes, previous.push(last), now, timeout);
            let deleted_before = overdue(nodes, previous, now, timeout);
            let deleted = overdue(nodes, previous.push(last), now, timeout);
            let known = exists|k: int|
                0 <= k < before.len() && (#[trigger] before[k]).server_id == last.server_id;
            let in_time = elapsed_nanos(now, last.created_at) < timeout.secs * 1_000_000_000
                + timeout.nanos;
            &&& known ==> after == before && deleted == deleted_before
            &&& !known && last.state is Removing ==> after == before.push(last) && deleted
                == deleted_before
            &&& !known && last.state is Provisioning && in_time ==> after == before.push(last)
                && deleted == deleted_before
            &&& !known && last.state is Provisioning && !in_time ==> after == before && deleted
                == deleted_before.push(
                ReconcileAction::DeleteStuckServer { server_id: last.server_id },
            )
            &&& last.state is Busy || last.state is Idle || last.state is Deregistering
                || last.state is Draining ==> after == before && deleted == deleted_before
        }),
        with_readmitted(nodes, Seq::empty(), now, timeout) == nodes,
        overdue(nodes, Seq::empty(), now, timeout).len() == 0,
{
    assert(previous.push(last).drop_last() =~= previous);
}

/// Where no two previous nodes stood for the same server: a previous node whose server is not
/// reported as a node is among the nodes afterwards exactly if it is being removed, or is
/// provisioning and its age is below the timeout; its server is deleted exactly if it is
/// provisioning and its age has reached the timeout.
pub proof fn unseen_nodes_are_kept_deleted_or_given_up(
    nodes: Seq<NodeView>,
    previous: Seq<NodeView>,
    now: Timestamp,
    timeout: Duration,
    i: int,
)
    requires
        own_servers(previous),
        0 <= i < previous.len(),
        forall|k: int|
            0 <= k < nodes.len() ==> (#[trigger] nodes[k]).server_id != previous[i].server_id,
    ensures
        ({
            let in_time = elapsed_nanos(now, previous[i].created_at) < timeout.secs
                * 1_000_000_000 + timeout.nanos;
            &&& with_readmitted(nodes, previous, now, timeout).contains(previous[i])
                <==> previous[i].state is Removing || (previous[i].state is Provisioning && in_time)
            &&& overdue(nodes, previous, now, timeout).contains(
                ReconcileAction::DeleteStuckServer { server_id: previous[i].server_id },
            ) <==> previous[i].state is Provisioning && !in_time
        }),
{
    carrying_over_selects_previous_nodes(nodes, previous, now, timeout);
    let node = previous[i];
    let in_time = elapsed_nanos(now, node.created_at) < timeout.secs * 1_000_000_000
        + timeout.nanos;
    let p = is_readmitted(nodes, now, timeout);
    let q = is_overdue(nodes, now, timeout);
    let after = with_readmitted(nodes, previous, now, timeout);
    assert(p(node) == (node.state is Removing || (node.state is Provisioning && in_time)));
    assert(q(node) == (node.state is Provisioning && !in_time));
    lemma_filter_is_exact(previous, p, node);
    lemma_filter_is_exact(previous, q, node);
    let kept = previous.filter(p);
    if after.contains(node) {
        let k = choose|k: int| 0 <= k < after.len() && after[k] == node;
        assert(k >= nodes.len()) by {
            if k < nodes.len() {
                assert(nodes[k].server_id != previous[i].server_id);
            }
        }
        assert(kept[k - nodes.len()] == node);
    }
    if kept.contains(node) {
        let k = choose|k: int| 0 <= k < kept.len() && kept[k] == node;
        assert(after[nodes.len() + k] == node);
    }
    let late = previous.filter(q);
    let deleted = overdue(nodes, previous, now, timeout);
    let action = ReconcileAction::DeleteStuckServer { server_id: node.server_id };
    if deleted.contains(action) {
        let k = choose|k: int| 0 <= k < deleted.len() && deleted[k] == action;
        lemma_filter_is_exact(previous, q, late[k]);
        assert(late.contains(late[k]));
        let m = choose|m: int| 0 <= m < previous.len() && previous[m] == late[k];
        assert(previous[m].server_id == previous[i].server_id);
        assert(m == i);
    }
    if late.contains(node) {
        let k = choose|k: int| 0 <= k < late.len() && late[k] == node;
        assert(deleted[k] == action);
    }
}

} // verus!
