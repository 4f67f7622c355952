//! What becomes of the managed nodes, stated of the nodes themselves.

use vstd::prelude::*;

use crate::gitea::RunnerView;
use crate::metrics::{counted, state_counts, MetricsView};
use crate::node_manager::{
    gauges_hold_ages_and_idle_times, has_permanent_capacity, in_billing_window, is_busy,
    is_deregistering, is_draining, is_idle, is_in_teardown, is_provisioning, is_removing,
    is_teardown_candidate, metrics_after_teardown_call, metrics_of_nodes, next_teardown_call,
    nodes_after_teardown_call, progress_after_teardown_call, runner_name_of, scale_up_count,
    ManagedNode, NodeState, NodeStateView, NodeView, TeardownCallView, TeardownProgress,
};
use crate::reconcile::node_of_server;
use crate::seqs::{
    indices_where, indices_where_is_exact, lemma_filter_map_is_exact, lemma_remove_first_at,
    lemma_remove_first_none, remove_first,
};
use crate::time::{elapsed_nanos, Duration, Timestamp};

verus! {

/// The nanoseconds from the creation of a server to the end of an hour that is paid for; the
/// first hour is hour zero.
pub open spec fn end_of_hour(hour: int) -> int {
    (hour + 1) * 3_600_000_000_000
}

/// A server is in its billing window in the last minutes of every hour of its life, as many of
/// them as the window has, and at no other time.
pub proof fn billing_window_is_the_end_of_every_hour(
    created_at: Timestamp,
    now: Timestamp,
    window: int,
)
    requires
        elapsed_nanos(now, created_at) >= 0,
        0 <= window <= 60,
    ensures
        in_billing_window(created_at, now, window) <==> exists|hour: int|
            0 <= hour && #[trigger] end_of_hour(hour) - window * 60_000_000_000 <= elapsed_nanos(
                now,
                created_at,
            ) < end_of_hour(hour),
{
    let age = elapsed_nanos(now, created_at);
    let hour = age / 3_600_000_000_000;
    assert(age < end_of_hour(hour));
    if in_billing_window(created_at, now, window) {
        assert(end_of_hour(hour) - window * 60_000_000_000 <= age);
    }
    if exists|h: int|
        0 <= h && #[trigger] end_of_hour(h) - window * 60_000_000_000 <= age < end_of_hour(h) {
        let h = choose|h: int|
            0 <= h && #[trigger] end_of_hour(h) - window * 60_000_000_000 <= age < end_of_hour(h);
        assert(h == hour);
    }
}

/// A window of an hour or more never closes once the server is there, and one of less than nothing
/// never opens. For an instant before the creation the minutes that are missing to it, beyond
/// whole hours, are added to the hour.
pub proof fn billing_window_of_any_length(
    created_at: Timestamp,
    now: Timestamp,
    window: int,
)
    ensures
        elapsed_nanos(now, created_at) >= 0 && window >= 60 ==> in_billing_window(
            created_at,
            now,
            window,
        ),
        elapsed_nanos(now, created_at) >= 0 && window < 0 ==> !in_billing_window(
            created_at,
            now,
            window,
        ),
        elapsed_nanos(now, created_at) < 0 ==> (in_billing_window(created_at, now, window)
            <==> window >= 60 + (-elapsed_nanos(now, created_at) / 60_000_000_000) % 60),
{
}

/// The candidates for teardown are all the nodes, and only those, that are idle, have been idle
/// for at least the timeout, and are in their billing window, in whatever hour of their life.
pub proof fn candidates_are_idle_for_long_and_in_their_window(
    nodes: Seq<NodeView>,
    now: Timestamp,
    idle_timeout: Duration,
    window: int,
    i: int,
)
    requires
        0 <= i < nodes.len(),
    ensures
        indices_where(nodes, is_teardown_candidate(now, idle_timeout, window)).contains(i)
            <==> nodes[i].state is Idle && elapsed_nanos(now, nodes[i].state->idle_since)
            >= idle_timeout.secs * 1_000_000_000 + idle_timeout.nanos && in_billing_window(
            nodes[i].created_at,
            now,
            window,
        ),
{
    let p = is_teardown_candidate(now, idle_timeout, window);
    let all = indices_where(nodes, p);
    indices_where_is_exact(nodes, p);
    if all.contains(i) {
        let k = choose|k: int| 0 <= k < all.len() && all[k] == i;
        assert(p(nodes[all[k]]));
    }
}

/// An idle node that has reached the timeout comes up for teardown in every hour of its life: an
/// hour or several after an instant at which it is in its window, it is a candidate if it is still
/// idle.
pub proof fn idle_nodes_are_candidates_again_every_hour(
    node: NodeView,
    first: Timestamp,
    later: Timestamp,
    hours: int,
    idle_timeout: Duration,
    window: int,
)
    requires
        is_teardown_candidate(first, idle_timeout, window)(node),
        elapsed_nanos(first, node.created_at) >= 0,
        hours >= 0,
        elapsed_nanos(later, node.created_at) == elapsed_nanos(first, node.created_at) + hours
            * 3_600_000_000_000,
        elapsed_nanos(later, node.state->idle_since) >= elapsed_nanos(
            first,
            node.state->idle_since,
        ),
    ensures
        is_teardown_candidate(later, idle_timeout, window)(node),
{
}

/// The nodes that go on with their teardown are those that are deregistering, draining or being
/// removed.
pub proof fn teardown_goes_on_for_all_that_are_leaving(nodes: Seq<NodeView>, i: int)
    requires
        0 <= i < nodes.len(),
    ensures
        indices_where(nodes, is_in_teardown()).contains(i) <==> nodes[i].state is Deregistering
            || nodes[i].state is Draining || nodes[i].state is Removing,
{
    let all = indices_where(nodes, is_in_teardown());
    indices_where_is_exact(nodes, is_in_teardown());
    if all.contains(i) {
        let k = choose|k: int| 0 <= k < all.len() && all[k] == i;
        assert(is_in_teardown()(nodes[all[k]]));
    }
}

/// As many servers are created as there are waiting jobs beyond the idle nodes, the nodes that
/// are provisioning and the permanent runners, but no more than there is room for.
pub proof fn servers_are_created_for_jobs_that_no_runner_takes(
    nodes: Seq<NodeView>,
    waiting: int,
    permanent_capacity: int,
    max_nodes: int,
)
    ensures
        ({
            let idle = nodes.filter(|n: NodeView| n.state is Idle).len();
            let coming = nodes.filter(|n: NodeView| n.state is Provisioning).len();
            let missing = waiting - idle - coming - permanent_capacity;
            let room = max_nodes - nodes.len();
            let count = scale_up_count(nodes, waiting, permanent_capacity, max_nodes);
            &&& missing <= 0 || room <= 0 ==> count == 0
            &&& 0 < missing <= room ==> count == missing
            &&& 0 < room <= missing ==> count == room
        }),
{
    assert(is_idle() =~= |n: NodeView| n.state is Idle);
    assert(is_provisioning() =~= |n: NodeView| n.state is Provisioning);
}

/// A runner counts as permanent capacity if it is online, not busy, carries the label `linux` and
/// is none of the managed nodes' runners.
pub proof fn permanent_capacity_is_counted_runner_by_runner(
    runners: Seq<RunnerView>,
    managed: Seq<Seq<char>>,
    r: RunnerView,
)
    ensures
        ({
            let p = has_permanent_capacity(managed);
            let linux = exists|k: int|
                0 <= k < r.labels.len() && #[trigger] r.labels[k] == "linux"@;
            let ours = exists|k: int| 0 <= k < managed.len() && #[trigger] managed[k] == r.name;
            let more = runners.push(r).filter(p).len() - runners.filter(p).len();
            &&& Seq::<RunnerView>::empty().filter(p).len() == 0
            &&& r.status == "online"@ && !r.busy && linux && !ours ==> more == 1
            &&& r.status != "online"@ || r.busy || !linux || ours ==> more == 0
        }),
{
    reveal(Seq::filter);
    assert(runners.push(r).drop_last() =~= runners);
}

/// The runners of the managed nodes are those of the nodes that are busy or idle.
pub proof fn managed_runners_are_those_of_busy_and_idle_nodes(
    nodes: Seq<NodeView>,
    name: Seq<char>,
)
    ensures
        nodes.filter_map(runner_name_of()).contains(name) <==> exists|k: int|
            0 <= k < nodes.len() && match (#[trigger] nodes[k]).state {
                NodeStateView::Busy { gitea_runner_name, .. } => gitea_runner_name == name,
                NodeStateView::Idle { gitea_runner_name, .. } => gitea_runner_name == name,
                _ => false,
            },
{
    lemma_filter_map_is_exact(nodes, runner_name_of(), name);
    if exists|k: int|
        0 <= k < nodes.len() && match (#[trigger] nodes[k]).state {
            NodeStateView::Busy { gitea_runner_name, .. } => gitea_runner_name == name,
            NodeStateView::Idle { gitea_runner_name, .. } => gitea_runner_name == name,
            _ => false,
        } {
        let k = choose|k: int|
            0 <= k < nodes.len() && match (#[trigger] nodes[k]).state {
                NodeStateView::Busy { gitea_runner_name, .. } => gitea_runner_name == name,
                NodeStateView::Idle { gitea_runner_name, .. } => gitea_runner_name == name,
                _ => false,
            };
        assert(runner_name_of()(nodes[k]) == Some(name));
    }
}

/// A counter goes up by one, and from the largest number back to zero.
pub proof fn counters_count_by_one(n: u64)
    ensures
        n < u64::MAX ==> counted(n) == n + 1,
        n == u64::MAX ==> counted(n) == 0,
{
}

/// Each event moves its own counter by one and leaves every other metric alone.
pub proof fn events_are_counted_apart(m: MetricsView)
    ensures
        m.server_created() == (MetricsView {
            nodes_created_total: m.server_created().nodes_created_total,
            ..m
        }),
        m.server_deleted() == (MetricsView {
            nodes_deleted_total: m.server_deleted().nodes_deleted_total,
            ..m
        }),
        m.scale_up_failed() == (MetricsView {
            scale_up_errors_total: m.scale_up_failed().scale_up_errors_total,
            ..m
        }),
        m.scale_down_failed() == (MetricsView {
            scale_down_errors_total: m.scale_down_failed().scale_down_errors_total,
            ..m
        }),
        m.runner_deregistered() == (MetricsView {
            runners_deregistered_total: m.runner_deregistered().runners_deregistered_total,
            ..m
        }),
        m.nodes_created_total < u64::MAX ==> m.server_created().nodes_created_total
            == m.nodes_created_total + 1,
        m.nodes_deleted_total < u64::MAX ==> m.server_deleted().nodes_deleted_total
            == m.nodes_deleted_total + 1,
        m.scale_up_errors_total < u64::MAX ==> m.scale_up_failed().scale_up_errors_total
            == m.scale_up_errors_total + 1,
        m.scale_down_errors_total < u64::MAX ==> m.scale_down_failed().scale_down_errors_total
            == m.scale_down_errors_total + 1,
        m.runners_deregistered_total < u64::MAX
            ==> m.runner_deregistered().runners_deregistered_total == m.runners_deregistered_total
            + 1,
{
}

/// A node leaves in four steps, one call each, and takes one step with each call that succeeds.
/// Its identity stays the same; only an idle node, or one that is leaving, has a step to take.
pub proof fn nodes_leave_step_by_step(nodes: Seq<NodeView>, index: int)
    requires
        0 <= index < nodes.len(),
    ensures
        ({
            let node = nodes[index];
            let call = next_teardown_call(node);
            let after = nodes_after_teardown_call(nodes, index, true);
            match node.state {
                NodeStateView::Provisioning => call is None,
                NodeStateView::Busy { .. } => call is None,
                NodeStateView::Idle { k8s_node_name, gitea_runner_id, .. } => {
                    &&& call == Some(TeardownCallView::DeleteRunner { runner_id: gitea_runner_id })
                    &&& after == nodes.update(
                        index,
                        NodeView {
                            server_id: node.server_id,
                            server_name: node.server_name,
                            created_at: node.created_at,
                            state: NodeStateView::Deregistering { k8s_node_name, gitea_runner_id },
                        },
                    )
                },
                NodeStateView::Deregistering { k8s_node_name, .. } => {
                    &&& call == Some(TeardownCallView::DrainNode { node_name: k8s_node_name })
                    &&& after == nodes.update(
                        index,
                        NodeView {
                            server_id: node.server_id,
                            server_name: node.server_name,
                            created_at: node.created_at,
                            state: NodeStateView::Draining { k8s_node_name },
                        },
                    )
                },
                NodeStateView::Draining { k8s_node_name } => {
                    &&& call == Some(TeardownCallView::DeleteNode { node_name: k8s_node_name })
                    &&& after == nodes.update(
                        index,
                        NodeView {
                            server_id: node.server_id,
                            server_name: node.server_name,
                            created_at: node.created_at,
                            state: NodeStateView::Removing,
                        },
                    )
                },
                NodeStateView::Removing => {
                    &&& call == Some(TeardownCallView::DeleteServer { server_id: node.server_id })
                    &&& after == nodes.remove(index)
                },
            }
        }),
        nodes_after_teardown_call(nodes, index, false) == nodes,
{
}

/// Every teardown call that fails is counted as an error, at whatever step. Of those that succeed,
/// the first counts a runner as deregistered and the last counts a server as deleted.
pub proof fn teardown_calls_are_counted(m: MetricsView, state: NodeStateView)
    requires
        m.scale_down_errors_total < u64::MAX,
        m.nodes_deleted_total < u64::MAX,
        m.runners_deregistered_total < u64::MAX,
    ensures
        state is Idle || state is Deregistering || state is Draining || state is Removing
            ==> metrics_after_teardown_call(m, state, false) == (MetricsView {
            scale_down_errors_total: (m.scale_down_errors_total + 1) as u64,
            ..m
        }),
        state is Idle ==> metrics_after_teardown_call(m, state, true) == (MetricsView {
            runners_deregistered_total: (m.runners_deregistered_total + 1) as u64,
            ..m
        }),
        state is Deregistering || state is Draining ==> metrics_after_teardown_call(m, state, true)
            == m,
        state is Removing ==> metrics_after_teardown_call(m, state, true) == (MetricsView {
            nodes_deleted_total: (m.nodes_deleted_total + 1) as u64,
            ..m
        }),
        state is Busy || state is Provisioning ==> metrics_after_teardown_call(m, state, true) == m
            && metrics_after_teardown_call(m, state, false) == m,
{
}

/// The servers that are counted as deleted in a teardown are the nodes that are gone after it.
pub proof fn deleted_servers_are_the_nodes_that_are_gone(
    nodes: Seq<NodeView>,
    index: int,
    succeeded: bool,
    m: MetricsView,
)
    requires
        0 <= index < nodes.len(),
        m.nodes_deleted_total < u64::MAX,
    ensures
        metrics_after_teardown_call(m, nodes[index].state, succeeded).nodes_deleted_total
            - m.nodes_deleted_total == nodes.len() - nodes_after_teardown_call(
            nodes,
            index,
            succeeded,
        ).len(),
        progress_after_teardown_call(nodes[index].state, succeeded) == (
        TeardownProgress::Finished { removed: true }) <==> nodes_after_teardown_call(
            nodes,
            index,
            succeeded,
        ).len() < nodes.len(),
{
}

/// A node that was taken from the cluster has its server deleted in the same step; no other call
/// is followed by another one.
pub proof fn servers_are_deleted_right_after_their_nodes(state: NodeStateView, succeeded: bool)
    ensures
        progress_after_teardown_call(state, succeeded) is ServerLeft <==> state is Draining
            && succeeded,
        progress_after_teardown_call(state, succeeded) matches TeardownProgress::Finished {
            removed,
        } ==> (removed <==> state is Removing && succeeded),
{
}

/// Deleting the server of a node takes the first node of that server out and leaves the others
/// where they are; a server that no node is known of leaves the nodes alone.
pub proof fn deleting_a_server_takes_its_node_out(nodes: Seq<NodeView>, id: i64, at: int)
    ensures
        0 <= at < nodes.len() && nodes[at].server_id == id && (forall|j: int|
            0 <= j < at ==> (#[trigger] nodes[j]).server_id != id) ==> remove_first(
            nodes,
            node_of_server(id),
        ) == nodes.remove(at),
        (forall|j: int| 0 <= j < nodes.len() ==> (#[trigger] nodes[j]).server_id != id)
            ==> remove_first(nodes, node_of_server(id)) == nodes,
{
    if 0 <= at < nodes.len() && nodes[at].server_id == id && (forall|j: int|
        0 <= j < at ==> (#[trigger] nodes[j]).server_id != id) {
        lemma_remove_first_at(nodes, node_of_server(id), at);
    }
    if forall|j: int| 0 <= j < nodes.len() ==> (#[trigger] nodes[j]).server_id != id {
        lemma_remove_first_none(nodes, node_of_server(id));
    }
}

proof fn lemma_state_names_differ()
    ensures
        "provisioning"@ != "busy"@,
        "provisioning"@ != "idle"@,
        "provisioning"@ != "deregistering"@,
        "provisioning"@ != "draining"@,
        "provisioning"@ != "removing"@,
        "busy"@ != "idle"@,
        "busy"@ != "deregistering"@,
        "busy"@ != "draining"@,
        "busy"@ != "removing"@,
        "idle"@ != "deregistering"@,
        "idle"@ != "draining"@,
        "idle"@ != "removing"@,
        "deregistering"@ != "draining"@,
        "deregistering"@ != "removing"@,
        "draining"@ != "removing"@,
{
    reveal_strlit("provisioning");
    reveal_strlit("busy");
    reveal_strlit("idle");
    reveal_strlit("deregistering");
    reveal_strlit("draining");
    reveal_strlit("removing");
    assert("provisioning"@.len() == 12);
    assert("busy"@.len() == 4);
    assert("idle"@.len() == 4);
    assert("deregistering"@.len() == 13);
    assert("draining"@.len() == 8);
    assert("removing"@.len() == 8);
    assert("busy"@[0] != "idle"@[0]);
    assert("draining"@[0] != "removing"@[0]);
}

/// The metrics tell how many nodes are in each state under that state's name, and the names of
/// the states are told apart. Values under other names, the counters, the numbers of jobs and the
/// provisioning times stay as they were.
pub proof fn nodes_are_counted_under_their_states(
    m: MetricsView,
    nodes: Seq<NodeView>,
    now: Timestamp,
)
    requires
        nodes.len() <= u64::MAX,
    ensures
        ({
            let after = metrics_of_nodes(m, nodes, now);
            let counts = after.managed_nodes;
            &&& counts.contains_key("provisioning"@) && counts["provisioning"@] == nodes.filter(
                |n: NodeView| n.state is Provisioning,
            ).len()
            &&& counts.contains_key("busy"@) && counts["busy"@] == nodes.filter(
                |n: NodeView| n.state is Busy,
            ).len()
            &&& counts.contains_key("idle"@) && counts["idle"@] == nodes.filter(
                |n: NodeView| n.state is Idle,
            ).len()
            &&& counts.contains_key("deregistering"@) && counts["deregistering"@] == nodes.filter(
                |n: NodeView| n.state is Deregistering,
            ).len()
            &&& counts.contains_key("draining"@) && counts["draining"@] == nodes.filter(
                |n: NodeView| n.state is Draining,
            ).len()
            &&& counts.contains_key("removing"@) && counts["removing"@] == nodes.filter(
                |n: NodeView| n.state is Removing,
            ).len()
            &&& forall|name: Seq<char>|
                name != "provisioning"@ && name != "busy"@ && name != "idle"@ && name
                    != "deregistering"@ && name != "draining"@ && name != "removing"@ ==> (
                counts.contains_key(name) <==> #[trigger] m.managed_nodes.contains_key(name)) && (
                m.managed_nodes.contains_key(name) ==> counts[name] == m.managed_nodes[name])
            &&& after == (MetricsView {
                managed_nodes: after.managed_nodes,
                node_age_seconds: after.node_age_seconds,
                node_idle_seconds: after.node_idle_seconds,
                ..m
            })
        }),
{
    lemma_state_names_differ();
    assert(is_provisioning() =~= |n: NodeView| n.state is Provisioning);
    assert(is_busy() =~= |n: NodeView| n.state is Busy);
    assert(is_idle() =~= |n: NodeView| n.state is Idle);
    assert(is_deregistering() =~= |n: NodeView| n.state is Deregistering);
    assert(is_draining() =~= |n: NodeView| n.state is Draining);
    assert(is_removing() =~= |n: NodeView| n.state is Removing);
    nodes.lemma_filter_len(|n: NodeView| n.state is Provisioning);
    nodes.lemma_filter_len(|n: NodeView| n.state is Busy);
    nodes.lemma_filter_len(|n: NodeView| n.state is Idle);
    nodes.lemma_filter_len(|n: NodeView| n.state is Deregistering);
    nodes.lemma_filter_len(|n: NodeView| n.state is Draining);
    nodes.lemma_filter_len(|n: NodeView| n.state is Removing);
}

/// Every node is counted under the name of its state.
pub proof fn every_node_is_counted_under_its_name(
    m: MetricsView,
    nodes: Seq<NodeView>,
    now: Timestamp,
    i: int,
)
    requires
        nodes.len() <= u64::MAX,
        0 <= i < nodes.len(),
    ensures
        metrics_of_nodes(m, nodes, now).managed_nodes.contains_key(nodes[i].state.name()),
        metrics_of_nodes(m, nodes, now).managed_nodes[nodes[i].state.name()] == nodes.filter(
            |n: NodeView| n.state.name() == nodes[i].state.name(),
        ).len(),
{
    nodes_are_counted_under_their_states(m, nodes, now);
    lemma_state_names_differ();
    let same = |n: NodeView| n.state.name() == nodes[i].state.name();
    match nodes[i].state {
        NodeStateView::Provisioning => assert(same =~= |n: NodeView| n.state is Provisioning),
        NodeStateView::Busy { .. } => assert(same =~= |n: NodeView| n.state is Busy),
        NodeStateView::Idle { .. } => assert(same =~= |n: NodeView| n.state is Idle),
        NodeStateView::Deregistering { .. } => assert(same
            =~= |n: NodeView| n.state is Deregistering),
        NodeStateView::Draining { .. } => assert(same =~= |n: NodeView| n.state is Draining),
        NodeStateView::Removing => assert(same =~= |n: NodeView| n.state is Removing),
    }
}

/// Ages and idle times are told in whole seconds that are over, and as zero where the instant lies
/// ahead. A node whose name no later node has is told of under that name; its idle time only if it
/// is idle.
pub proof fn ages_and_idle_times_are_told_in_seconds(
    m: MetricsView,
    nodes: Seq<NodeView>,
    now: Timestamp,
    i: int,
)
    requires
        0 <= i < nodes.len(),
        nodes[i].wf(),
        now.wf(),
        forall|j: int|
            i < j < nodes.len() ==> (#[trigger] nodes[j]).server_name != nodes[i].server_name,
    ensures
        ({
            let after = metrics_of_nodes(m, nodes, now);
            let name = nodes[i].server_name;
            let age = elapsed_nanos(now, nodes[i].created_at);
            let told = after.node_age_seconds[name];
            &&& after.node_age_seconds.contains_key(name)
            &&& age >= 0 ==> told * 1_000_000_000 <= age < (told + 1) * 1_000_000_000
            &&& age < 0 ==> told == 0
        }),
        nodes[i].state matches NodeStateView::Idle { idle_since, .. } ==> {
            let after = metrics_of_nodes(m, nodes, now);
            let name = nodes[i].server_name;
            let idle = elapsed_nanos(now, idle_since);
            let told = after.node_idle_seconds[name];
            &&& after.node_idle_seconds.contains_key(name)
            &&& idle >= 0 ==> told * 1_000_000_000 <= idle < (told + 1) * 1_000_000_000
            &&& idle < 0 ==> told == 0
        },
{
    gauges_hold_ages_and_idle_times(nodes, now, i);
}

/// Nothing is told of a name that no node has, nor an idle time of one that no idle node has.
pub proof fn nothing_is_told_of_nodes_that_are_gone(
    m: MetricsView,
    nodes: Seq<NodeView>,
    now: Timestamp,
    name: Seq<char>,
)
    ensures
        (forall|j: int| 0 <= j < nodes.len() ==> (#[trigger] nodes[j]).server_name != name)
            ==> !metrics_of_nodes(m, nodes, now).node_age_seconds.contains_key(name),
        (forall|j: int|
            0 <= j < nodes.len() ==> (#[trigger] nodes[j]).server_name != name || !(
            nodes[j].state is Idle)) ==> !metrics_of_nodes(
            m,
            nodes,
            now,
        ).node_idle_seconds.contains_key(name),
    decreases nodes.len(),
{
    if nodes.len() > 0 {
        let init = nodes.drop_last();
        nothing_is_told_of_nodes_that_are_gone(m, init, now, name);
        if forall|j: int| 0 <= j < nodes.len() ==> (#[trigger] nodes[j]).server_name != name {
            assert(nodes[nodes.len() - 1].server_name != name);
            assert forall|j: int| 0 <= j < init.len() implies (#[trigger] init[j]).server_name
                != name by {
                assert(nodes[j].server_name != name);
            }
        }
        if forall|j: int|
            0 <= j < nodes.len() ==> (#[trigger] nodes[j]).server_name != name || !(
            nodes[j].state is Idle) {
            assert(nodes[nodes.len() - 1].server_name != name || !(nodes[nodes.len()
                - 1].state is Idle));
            assert forall|j: int| 0 <= j < init.len() implies (#[trigger] init[j]).server_name
                != name || !(init[j].state is Idle) by {
                assert(nodes[j].server_name != name || !(nodes[j].state is Idle));
            }
        }
    }
}

/// Setting the six counts puts each under the name of its own state and leaves other names alone.
pub proof fn counts_are_set_under_their_own_names(
    before: Map<Seq<char>, u64>,
    provisioning: u64,
    busy: u64,
    idle: u64,
    deregistering: u64,
    draining: u64,
    removing: u64,
    name: Seq<char>,
)
    ensures
        ({
            let after = state_counts(
                before,
                provisioning as int,
                busy as int,
                idle as int,
                deregistering as int,
                draining as int,
                removing as int,
            );
            &&& after["provisioning"@] == provisioning
            &&& after["busy"@] == busy
            &&& after["idle"@] == idle
            &&& after["deregistering"@] == deregistering
            &&& after["draining"@] == draining
            &&& after["removing"@] == removing
            &&& after.contains_key(name) <==> before.contains_key(name) || name == "provisioning"@
                || name == "busy"@ || name == "idle"@ || name == "deregistering"@ || name
                == "draining"@ || name == "removing"@
        }),
{
    lemma_state_names_differ();
}

/// Each state has a name of its own, the one that it is counted under.
pub proof fn states_are_told_apart_by_name(state: NodeStateView)
    ensures
        state.name() == "provisioning"@ <==> state is Provisioning,
        state.name() == "busy"@ <==> state is Busy,
        state.name() == "idle"@ <==> state is Idle,
        state.name() == "deregistering"@ <==> state is Deregistering,
        state.name() == "draining"@ <==> state is Draining,
        state.name() == "removing"@ <==> state is Removing,
{
    lemma_state_names_differ();
}

/// The contracts speak of a node as it is held: its server, its names, its runner and the instant
/// since which it is idle.
pub proof fn nodes_are_seen_as_they_are_held(node: ManagedNode)
    ensures
        node@.server_id == node.hetzner_server_id,
        node@.server_name == node.hetzner_server_name@,
        node@.created_at == node.created_at,
        match node.state {
            NodeState::Provisioning => node@.state == NodeStateView::Provisioning,
            NodeState::Busy { k8s_node_name, gitea_runner_id, gitea_runner_name } =>
                node@.state == (NodeStateView::Busy {
                k8s_node_name: k8s_node_name@,
                gitea_runner_id,
                gitea_runner_name: gitea_runner_name@,
            }),
            NodeState::Idle { k8s_node_name, gitea_runner_id, gitea_runner_name, idle_since } =>
                node@.state == (NodeStateView::Idle {
                k8s_node_name: k8s_node_name@,
                gitea_runner_id,
                gitea_runner_name: gitea_runner_name@,
                idle_since,
            }),
            NodeState::Deregistering { k8s_node_name, gitea_runner_id } => node@.state == (
            NodeStateView::Deregistering { k8s_node_name: k8s_node_name@, gitea_runner_id }),
            NodeState::Draining { k8s_node_name } => node@.state == (NodeStateView::Draining {
                k8s_node_name: k8s_node_name@,
            }),
            NodeState::Removing => node@.state == NodeStateView::Removing,
        },
{
}

} // verus!
