//! What an iteration does, stated of the answers that it gets and the settings it runs with.

use vstd::prelude::*;

use crate::cloud_init::{cloud_config_carries_its_parts, occurs_in};
use crate::control_laws::{late_server, stuck_servers_are_planned_once, Event};
use crate::control_loop::{
    is_in_time, is_late, is_ready, known_nodes, planned, server_of, target, unknown_servers,
    AutoscalerView, ReplyView, RequestView, StageView,
};
use crate::gitea::{for_linux, linux_count, JobStatus, JobView, RunnerView};
use crate::hetzner::ServerView;
use crate::k8s::{K8sNodeView, K8sPodView};
use crate::metrics::MetricsView;
use crate::node_laws::{
    managed_runners_are_those_of_busy_and_idle_nodes,
    servers_are_created_for_jobs_that_no_runner_takes,
};
use crate::node_manager::{
    has_permanent_capacity, in_billing_window, is_in_teardown, is_teardown_candidate,
    metrics_after_teardown_call, metrics_of_nodes, next_teardown_call, nodes_after_teardown_call,
    runner_name_of, NodeManagerView, NodeStateView, NodeView, TeardownCallView,
};
use crate::reconcile::{
    carried_node, node_of_server, observed_node, overdue, own_servers, provisioned_in,
    readmission_only_adds, stuck_action, Observation, ReconcileAction,
};
use crate::reconcile_laws::{
    servers_have_until_the_timeout_to_join, servers_that_joined_are_not_stuck,
    unseen_nodes_are_kept_deleted_or_given_up,
};
use crate::seqs::{
    indices_where, indices_where_is_exact, lemma_filter_map_is_exact, lemma_filter_map_last,
    remove_first,
};
use crate::service_laws::{carries_linux, servers_are_selected_by_their_label};
use crate::time::{elapsed_nanos, Duration, Timestamp};

verus! {

/// How many of the jobs carry the label `linux`.
pub open spec fn jobs_with_linux(jobs: Seq<JobView>) -> nat {
    jobs.filter(|j: JobView| carries_linux(j.labels)).len()
}

/// The four answers of Gitea: the jobs that an iteration scales up for are the waiting ones and
/// the queued ones that carry the label `linux`, and no others. The jobs in progress and the
/// runners are kept for later; jobs in progress without the label are not. Both numbers are told
/// in the metrics, and nothing else changes.
#[verifier::rlimit(40)]
pub proof fn demand_is_the_waiting_and_queued_jobs_with_the_label(
    a: AutoscalerView,
    waiting: Seq<JobView>,
    queued: Seq<JobView>,
    in_progress: Seq<JobView>,
    runners: Seq<RunnerView>,
    t: Timestamp,
)
    requires
        a.stage is ListWaitingJobs,
        jobs_with_linux(waiting) + jobs_with_linux(queued) <= u64::MAX,
        jobs_with_linux(in_progress) <= u64::MAX,
    ensures
        ({
            let b = a.next(ReplyView::Jobs(waiting), t);
            let c = b.next(ReplyView::Jobs(queued), t);
            let d = c.next(ReplyView::Jobs(in_progress), t);
            let e = d.next(ReplyView::Runners(runners), t);
            let demand = jobs_with_linux(waiting) + jobs_with_linux(queued);
            let running = in_progress.filter(|j: JobView| carries_linux(j.labels));
            &&& e.stage == (StageView::ListServers {
                waiting: demand as int,
                in_progress: running,
                runners,
            })
            &&& e.metrics.linux_jobs_waiting == demand
            &&& e.metrics.linux_jobs_running == running.len()
            &&& e.metrics == (MetricsView {
                linux_jobs_waiting: e.metrics.linux_jobs_waiting,
                linux_jobs_running: e.metrics.linux_jobs_running,
                ..a.metrics
            })
            &&& e.manager == a.manager
            &&& e.ready_servers == a.ready_servers
            &&& e.config == a.config
        }),
{
    assert(for_linux() =~= |j: JobView| carries_linux(j.labels));
}

/// A job without the label `linux`, wherever it stands in the list, changes neither what an
/// iteration knows nor anything that follows from it.
#[verifier::rlimit(40)]
pub proof fn jobs_without_the_label_change_nothing(
    a: AutoscalerView,
    before: Seq<JobView>,
    job: JobView,
    after: Seq<JobView>,
    t: Timestamp,
)
    requires
        a.stage is ListWaitingJobs || a.stage is ListQueuedJobs || a.stage is ListInProgressJobs,
        forall|k: int| 0 <= k < job.labels.len() ==> #[trigger] job.labels[k] != "linux"@,
    ensures
        a.next(ReplyView::Jobs(before + seq![job] + after), t) == a.next(
            ReplyView::Jobs(before + after),
            t,
        ),
{
    assert(!for_linux()(job));
    lemma_filter_of_three(before, job, after, for_linux());
    let (with, without) = (before + seq![job] + after, before + after);
    assert(with.filter(for_linux()) == without.filter(for_linux()));
    assert(linux_count(with) == linux_count(without));
}

proof fn lemma_filter_of_three<T>(before: Seq<T>, item: T, after: Seq<T>, p: spec_fn(T) -> bool)
    ensures
        (before + seq![item] + after).filter(p) == if p(item) {
            before.filter(p) + seq![item] + after.filter(p)
        } else {
            before.filter(p) + after.filter(p)
        },
        (before + after).filter(p) == before.filter(p) + after.filter(p),
{
    Seq::filter_distributes_over_add(before + seq![item], after, p);
    Seq::filter_distributes_over_add(before, seq![item], p);
    Seq::filter_distributes_over_add(before, after, p);
    reveal(Seq::filter);
    assert(seq![item].drop_last() =~= Seq::<T>::empty());
    assert(seq![item].last() == item);
    Seq::<T>::empty().lemma_filter_len(p);
    if p(item) {
        assert(seq![item].filter(p) =~= seq![item]);
    } else {
        assert(seq![item].filter(p) =~= Seq::<T>::empty());
        assert(before.filter(p) + Seq::<T>::empty() =~= before.filter(p));
    }
}

/// A job with the label `linux`, wherever it stands in the list, adds one to the demand if it is
/// waiting or queued, and one to the jobs in progress if it is running.
#[verifier::rlimit(40)]
pub proof fn each_job_with_the_label_counts_once(
    a: AutoscalerView,
    before: Seq<JobView>,
    job: JobView,
    after: Seq<JobView>,
    t: Timestamp,
)
    requires
        carries_linux(job.labels),
    ensures
        ({
            let with = a.next(ReplyView::Jobs(before + seq![job] + after), t).stage;
            let without = a.next(ReplyView::Jobs(before + after), t).stage;
            &&& a.stage is ListWaitingJobs ==> with is ListQueuedJobs && without is ListQueuedJobs
                && with->ListQueuedJobs_waiting == without->ListQueuedJobs_waiting + 1
            &&& a.stage is ListQueuedJobs ==> with is ListInProgressJobs
                && without is ListInProgressJobs && with->ListInProgressJobs_waiting
                == without->ListInProgressJobs_waiting + 1
            &&& a.stage is ListInProgressJobs ==> with is ListRunners && without is ListRunners
                && with->ListRunners_waiting == without->ListRunners_waiting
                && with->ListRunners_in_progress.len() == without->ListRunners_in_progress.len() + 1
                && with->ListRunners_in_progress.contains(job)
        }),
{
    let p = for_linux();
    assert(p(job));
    lemma_filter_of_three(before, job, after, p);
    let all = before.filter(p) + seq![job] + after.filter(p);
    assert(all[before.filter(p).len() as int] == job);
}

/// The answers of Hetzner and of the cluster are kept beside those of Gitea, and change nothing
/// until the pods are known too.
pub proof fn answers_are_kept_until_all_are_there(
    a: AutoscalerView,
    servers: Seq<ServerView>,
    nodes: Seq<K8sNodeView>,
    t: Timestamp,
)
    requires
        a.stage is ListServers,
    ensures
        ({
            let b = a.next(ReplyView::Servers(servers), t).next(ReplyView::Nodes(nodes), t);
            &&& b.stage == (StageView::ListPods {
                waiting: a.stage->ListServers_waiting,
                in_progress: a.stage->ListServers_in_progress,
                runners: a.stage->ListServers_runners,
                servers,
                nodes,
            })
            &&& b.manager == a.manager
            &&& b.ready_servers == a.ready_servers
            &&& b.metrics == a.metrics
            &&& b.config == a.config
        }),
{
}

/// What each question asks for: the jobs of one status after another, all runners, the servers and
/// the nodes that carry the autoscaler's label, and the runners' pods in the configured namespace.
pub proof fn questions_are_asked_in_order(a: AutoscalerView, id: Seq<char>)
    ensures
        a.stage is ListWaitingJobs ==> a.request(id) == Some(
            RequestView::ListJobs { status: JobStatus::Waiting },
        ),
        a.stage is ListQueuedJobs ==> a.request(id) == Some(
            RequestView::ListJobs { status: JobStatus::Queued },
        ),
        a.stage is ListInProgressJobs ==> a.request(id) == Some(
            RequestView::ListJobs { status: JobStatus::InProgress },
        ),
        a.stage is ListRunners ==> a.request(id) == Some(RequestView::ListRunners),
        a.stage is ListServers ==> a.request(id) == Some(
            RequestView::ListServers { label_selector: "managed-by=gitea-ci-autoscaler"@ },
        ),
        a.stage is ListNodes ==> a.request(id) == Some(
            RequestView::ListNodes { label_selector: "managed-by=gitea-ci-autoscaler"@ },
        ),
        a.stage is ListPods ==> a.request(id) == Some(
            RequestView::ListPods {
                namespace: a.config.runner_namespace,
                label_selector: "app=gitea-actions-runner"@,
            },
        ),
        a.stage is Finished ==> a.request(id) is None,
{
    servers_are_selected_by_their_label(Seq::empty(), Seq::empty());
}

/// A new server is named by the first eight characters of its identifier, and is told where the
/// control plane is, the secret of the cluster, the version to install and the arguments of the
/// agent, each in its place.
pub proof fn new_servers_are_told_how_to_join(a: AutoscalerView, id: Seq<char>)
    requires
        a.stage is CreateServers,
        id.len() >= 8,
    ensures
        a.request(id) matches Some(RequestView::CreateServer { name, cloud_init }) && {
            &&& name.len() == "ci-runner-"@.len() + 8
            &&& "ci-runner-"@.is_prefix_of(name)
            &&& id.take(8).is_suffix_of(name)
            &&& "#cloud-config"@.is_prefix_of(cloud_init)
            &&& occurs_in("K3S_URL=https://"@ + a.manager.master_ip + ":6443"@, cloud_init)
            &&& occurs_in("K3S_TOKEN="@ + a.config.cluster_secret, cloud_init)
            &&& occurs_in("INSTALL_K3S_VERSION="@ + a.manager.k3s_version, cloud_init)
            &&& a.config.k3s_agent_args.is_suffix_of(cloud_init)
        },
{
    cloud_config_carries_its_parts(
        a.manager.master_ip,
        a.config.cluster_secret,
        a.manager.k3s_version,
        a.config.k3s_agent_args,
    );
    let name = "ci-runner-"@ + id.take(8);
    assert(name.take("ci-runner-"@.len() as int) =~= "ci-runner-"@);
    assert(name.skip(name.len() - 8) =~= id.take(8));
}

/// What the services report, held against the configured provisioning timeout.
pub open spec fn reported(
    a: AutoscalerView,
    pods: Seq<K8sPodView>,
    now: Timestamp,
) -> Observation {
    Observation {
        k8s_nodes: a.stage->ListPods_nodes,
        pods,
        runners: a.stage->ListPods_runners,
        in_progress: a.stage->ListPods_in_progress,
        now,
        timeout: Duration { secs: a.config.provisioning_timeout_secs as u64, nanos: 0 },
    }
}

/// Once the pods are known, the plan for what was reported takes the place of the nodes and of the
/// servers that had come up, and the provisioning times are added to those that were not exported
/// yet. The servers that the plan gives up are deleted before anything else.
#[verifier::rlimit(40)]
pub proof fn the_plan_takes_effect_once_the_pods_are_known(
    a: AutoscalerView,
    pods: Seq<K8sPodView>,
    now: Timestamp,
)
    requires
        a.stage is ListPods,
    ensures
        ({
            let plan = planned(
                a.stage->ListPods_servers,
                reported(a, pods, now),
                a.manager.nodes,
                a.ready_servers,
            );
            let b = a.next(ReplyView::Pods(pods), now);
            &&& b.manager == (NodeManagerView { nodes: plan.nodes, ..a.manager })
            &&& b.ready_servers == plan.ready
            &&& b.config == a.config
            &&& b.metrics.provisioning_duration == a.metrics.provisioning_duration
                + plan.provisioned_in
            &&& b.metrics.nodes_created_total == a.metrics.nodes_created_total
            &&& b.metrics.nodes_deleted_total == a.metrics.nodes_deleted_total
            &&& b.metrics.scale_up_errors_total == a.metrics.scale_up_errors_total
            &&& b.metrics.scale_down_errors_total == a.metrics.scale_down_errors_total
            &&& b.metrics.runners_deregistered_total == a.metrics.runners_deregistered_total
            &&& b.metrics.linux_jobs_waiting == a.metrics.linux_jobs_waiting
            &&& b.metrics.linux_jobs_running == a.metrics.linux_jobs_running
            &&& plan.stuck.len() > 0 ==> b.stage == (StageView::DeleteStuckServers {
                now,
                waiting: a.stage->ListPods_waiting,
                runners: a.stage->ListPods_runners,
                server_ids: plan.stuck,
            })
            &&& plan.stuck.len() == 0 ==> !(b.stage is DeleteStuckServers)
        }),
{
}

/// The node is more than provisioning, its server is remembered as one that came up, or the
/// previous iteration knew it as more than provisioning.
pub open spec fn has_come_up(
    node: NodeView,
    previous: Seq<NodeView>,
    remembered: Seq<i64>,
) -> bool {
    ||| !(node.state is Provisioning)
    ||| exists|k: int| 0 <= k < remembered.len() && #[trigger] remembered[k] == node.server_id
    ||| exists|k: int|
        0 <= k < previous.len() && (#[trigger] previous[k]).server_id == node.server_id && !(
        previous[k].state is Provisioning)
}

proof fn lemma_has_come_up(previous: Seq<NodeView>, remembered: Seq<i64>)
    ensures
        is_ready(previous, remembered) == (|n: NodeView| has_come_up(n, previous, remembered)),
{
    assert(is_ready(previous, remembered) =~= |n: NodeView|
        has_come_up(n, previous, remembered));
}

/// A plan goes on with the known nodes that have come up or whose age is below the timeout, in
/// their order, and remembers the servers of those that have come up.
pub proof fn plans_go_on_with_nodes_that_came_up_or_may(
    servers: Seq<ServerView>,
    seen: Observation,
    previous: Seq<NodeView>,
    remembered: Seq<i64>,
)
    ensures
        ({
            let plan = planned(servers, seen, previous, remembered);
            let known = known_nodes(servers, seen, previous);
            let limit = seen.timeout.secs * 1_000_000_000 + seen.timeout.nanos;
            &&& plan.nodes == known.filter(
                |n: NodeView|
                    has_come_up(n, previous, remembered) || elapsed_nanos(seen.now, n.created_at)
                        < limit,
            )
            &&& plan.ready == known.filter(
                |n: NodeView| has_come_up(n, previous, remembered),
            ).map_values(|n: NodeView| n.server_id)
        }),
{
    let limit = seen.timeout.secs * 1_000_000_000 + seen.timeout.nanos;
    lemma_has_come_up(previous, remembered);
    assert(is_in_time(previous, remembered, seen.now, seen.timeout) =~= |n: NodeView|
        has_come_up(n, previous, remembered) || elapsed_nanos(seen.now, n.created_at) < limit);
    assert(server_of() =~= |n: NodeView| n.server_id);
}

/// The known nodes are first those that the servers are reported as, each with what is carried
/// over of its own, and after them previous nodes whose servers are not among these.
pub proof fn known_nodes_are_the_reported_ones_first(
    servers: Seq<ServerView>,
    seen: Observation,
    previous: Seq<NodeView>,
)
    ensures
        ({
            let fresh = servers.filter_map(observed_node(seen));
            let known = known_nodes(servers, seen, previous);
            &&& fresh.len() <= known.len()
            &&& forall|k: int|
                0 <= k < fresh.len() ==> #[trigger] known[k] == carried_node(previous)(fresh[k])
            &&& forall|k: int|
                fresh.len() <= k < known.len() ==> previous.contains(#[trigger] known[k])
        }),
{
    let carried = servers.filter_map(observed_node(seen)).map_values(carried_node(previous));
    let known = known_nodes(servers, seen, previous);
    readmission_only_adds(carried, previous, seen.now, seen.timeout);
    assert forall|k: int| 0 <= k < carried.len() implies #[trigger] known[k] == carried[k] by {
        assert(known.take(carried.len() as int)[k] == known[k]);
    }
}

/// One more server, reported last: its provisioning time comes last, if it has one.
pub proof fn provisioning_times_come_server_by_server(
    servers: Seq<ServerView>,
    server: ServerView,
    seen: Observation,
    previous: Seq<NodeView>,
    remembered: Seq<i64>,
)
    ensures
        ({
            let before = planned(servers, seen, previous, remembered).provisioned_in;
            let after = planned(servers.push(server), seen, previous, remembered).provisioned_in;
            match observed_node(seen)(server) {
                Some(node) => match provisioned_in(previous, seen.now)(node) {
                    Some(secs) => after == before.push(secs),
                    None => after == before,
                },
                None => after == before,
            }
        }),
        planned(Seq::empty(), seen, previous, remembered).provisioned_in.len() == 0,
{
    let all = servers.push(server);
    assert(all.drop_last() =~= servers);
    lemma_filter_map_last(all, observed_node(seen));
    if let Some(node) = observed_node(seen)(server) {
        let fresh = servers.filter_map(observed_node(seen));
        assert(fresh.push(node).drop_last() =~= fresh);
        lemma_filter_map_last(fresh.push(node), provisioned_in(previous, seen.now));
    }
}

/// The server was reported without a node that joined, and its age has reached the timeout.
pub open spec fn never_joined(servers: Seq<ServerView>, seen: Observation, i: int) -> bool {
    &&& 0 <= i < servers.len()
    &&& forall|j: int|
        0 <= j < seen.k8s_nodes.len() ==> (#[trigger] seen.k8s_nodes[j]).name != servers[i].name
    &&& elapsed_nanos(seen.now, servers[i].created) >= seen.timeout.secs * 1_000_000_000
        + seen.timeout.nanos
}

/// A plan gives up exactly the servers that no node has joined from by the timeout, those that
/// only the previous iteration knew and that are overdue, and those of known nodes that have not
/// come up by the timeout. It names each once.
pub proof fn plans_give_up_servers_that_do_not_come_up(
    servers: Seq<ServerView>,
    seen: Observation,
    previous: Seq<NodeView>,
    remembered: Seq<i64>,
    id: i64,
)
    ensures
        ({
            let plan = planned(servers, seen, previous, remembered);
            let known = known_nodes(servers, seen, previous);
            let carried = servers.filter_map(observed_node(seen)).map_values(
                carried_node(previous),
            );
            let limit = seen.timeout.secs * 1_000_000_000 + seen.timeout.nanos;
            &&& plan.stuck.no_duplicates()
            &&& plan.stuck.contains(id) <==> {
                ||| exists|i: int| #[trigger]
                    never_joined(servers, seen, i) && servers[i].id == id
                ||| overdue(carried, previous, seen.now, seen.timeout).contains(
                    ReconcileAction::DeleteStuckServer { server_id: id },
                )
                ||| exists|k: int|
                    0 <= k < known.len() && (#[trigger] known[k]).server_id == id && !has_come_up(
                        known[k],
                        previous,
                        remembered,
                    ) && elapsed_nanos(seen.now, known[k].created_at) >= limit
            }
        }),
{
    let known = known_nodes(servers, seen, previous);
    let carried = servers.filter_map(observed_node(seen)).map_values(carried_node(previous));
    let limit = seen.timeout.secs * 1_000_000_000 + seen.timeout.nanos;
    let stuck = servers.filter_map(stuck_action(seen));
    let late = overdue(carried, previous, seen.now, seen.timeout);
    let action = ReconcileAction::DeleteStuckServer { server_id: id };
    stuck_servers_are_planned_once(servers, seen, previous, remembered);
    lemma_has_come_up(previous, remembered);
    lemma_filter_map_is_exact(servers, stuck_action(seen), action);
    assert((exists|i: int| #[trigger] never_joined(servers, seen, i) && servers[i].id == id)
        == stuck.contains(action)) by {
        if exists|i: int| #[trigger] never_joined(servers, seen, i) && servers[i].id == id {
            let i = choose|i: int| #[trigger]
                never_joined(servers, seen, i) && servers[i].id == id;
            servers_have_until_the_timeout_to_join(servers[i], seen);
            assert(stuck_action(seen)(servers[i]) == Some(action));
        }
        if stuck.contains(action) {
            let i = choose|i: int|
                0 <= i < servers.len() && stuck_action(seen)(#[trigger] servers[i]) == Some(action);
            if exists|j: int|
                0 <= j < seen.k8s_nodes.len() && (#[trigger] seen.k8s_nodes[j]).name
                    == servers[i].name {
                let j = choose|j: int|
                    0 <= j < seen.k8s_nodes.len() && (#[trigger] seen.k8s_nodes[j]).name
                        == servers[i].name;
                servers_that_joined_are_not_stuck(servers[i], seen, j);
            }
            servers_have_until_the_timeout_to_join(servers[i], seen);
            assert(never_joined(servers, seen, i));
        }
    }
    let all = stuck + late;
    let ids = all.map_values(target());
    assert(ids == unknown_servers(servers, seen, previous));
    assert(ids.contains(id) == (stuck.contains(action) || late.contains(action))) by {
        if ids.contains(id) {
            let k = choose|k: int| 0 <= k < ids.len() && ids[k] == id;
            assert(all[k] == action);
            if k < stuck.len() {
                assert(stuck[k] == action);
            } else {
                assert(late[k - stuck.len()] == action);
            }
        }
        if stuck.contains(action) {
            let k = choose|k: int| 0 <= k < stuck.len() && stuck[k] == action;
            assert(all[k] == action);
            assert(ids[k] == id);
        }
        if late.contains(action) {
            let k = choose|k: int| 0 <= k < late.len() && late[k] == action;
            assert(all[stuck.len() + k] == action);
            assert(ids[stuck.len() + k] == id);
        }
    }
    let p = is_late(previous, remembered, seen.now, seen.timeout);
    assert forall|n: NodeView| #[trigger]
        p(n) == (!has_come_up(n, previous, remembered) && elapsed_nanos(seen.now, n.created_at)
            >= limit) by {
        assert(is_ready(previous, remembered)(n) == has_come_up(n, previous, remembered));
    }
    assert(late_server(servers, seen, previous, remembered, id) == exists|k: int|
        0 <= k < known.len() && (#[trigger] known[k]).server_id == id && !has_come_up(
            known[k],
            previous,
            remembered,
        ) && elapsed_nanos(seen.now, known[k].created_at) >= limit) by {
        if late_server(servers, seen, previous, remembered, id) {
            let k = choose|k: int|
                0 <= k < known.len() && (#[trigger] known[k]).server_id == id && p(known[k]);
            assert(known[k].server_id == id);
        }
        if exists|k: int|
            0 <= k < known.len() && (#[trigger] known[k]).server_id == id && !has_come_up(
                known[k],
                previous,
                remembered,
            ) && elapsed_nanos(seen.now, known[k].created_at) >= limit {
            let k = choose|k: int|
                0 <= k < known.len() && (#[trigger] known[k]).server_id == id && !has_come_up(
                    known[k],
                    previous,
                    remembered,
                ) && elapsed_nanos(seen.now, known[k].created_at) >= limit;
            assert(p(known[k]));
        }
    }
}

/// The instant that an iteration goes by: the one at which the pods were known.
pub open spec fn time_of(stage: StageView, t: Timestamp) -> Timestamp {
    match stage {
        StageView::DeleteStuckServers { now, .. } => now,
        StageView::CreateServers { now, .. } => now,
        StageView::StartTeardown { now, .. } => now,
        StageView::ContinueTeardown { now, .. } => now,
        _ => t,
    }
}

/// The reply lets an iteration go beyond its questions, or it is beyond them already.
pub open spec fn is_past_the_questions(stage: StageView, reply: ReplyView) -> bool {
    ||| stage is ListPods && reply is Pods
    ||| stage is DeleteStuckServers
    ||| stage is CreateServers
    ||| stage is StartTeardown
    ||| stage is ContinueTeardown
}

/// An iteration goes by one instant from the moment at which the pods are known.
pub proof fn an_iteration_goes_by_one_instant(a: AutoscalerView, reply: ReplyView, t: Timestamp)
    requires
        is_past_the_questions(a.stage, reply),
        !(a.next(reply, t).stage is Finished),
    ensures
        time_of(a.next(reply, t).stage, t) == time_of(a.stage, t),
{
}

/// A server that is given up is taken from the nodes and counted, as deleted and as a failure to
/// scale up, only once it is deleted. Whatever becomes of it, the next one is up.
#[verifier::rlimit(40)]
pub proof fn servers_are_given_up_one_by_one(a: AutoscalerView, reply: ReplyView, t: Timestamp)
    requires
        a.stage is DeleteStuckServers,
        a.stage->server_ids.len() > 0,
        a.metrics.nodes_deleted_total < u64::MAX,
        a.metrics.scale_up_errors_total < u64::MAX,
    ensures
        ({
            let b = a.next(reply, t);
            let id = a.stage->server_ids[0];
            let left = a.stage->server_ids.drop_first();
            let count: int = if reply is Done {
                1
            } else {
                0
            };
            &&& reply is Done ==> b.manager.nodes == remove_first(
                a.manager.nodes,
                node_of_server(id),
            )
            &&& !(reply is Done) ==> b.manager.nodes == a.manager.nodes
            &&& b.metrics.nodes_deleted_total == a.metrics.nodes_deleted_total + count
            &&& b.metrics.scale_up_errors_total == a.metrics.scale_up_errors_total + count
            &&& b.metrics.nodes_created_total == a.metrics.nodes_created_total
            &&& b.metrics.scale_down_errors_total == a.metrics.scale_down_errors_total
            &&& b.metrics.runners_deregistered_total == a.metrics.runners_deregistered_total
            &&& b.metrics.linux_jobs_waiting == a.metrics.linux_jobs_waiting
            &&& b.metrics.linux_jobs_running == a.metrics.linux_jobs_running
            &&& b.metrics.provisioning_duration == a.metrics.provisioning_duration
            &&& b.ready_servers == a.ready_servers
            &&& left.len() > 0 ==> b.stage == (StageView::DeleteStuckServers {
                now: a.stage->DeleteStuckServers_now,
                waiting: a.stage->DeleteStuckServers_waiting,
                runners: a.stage->DeleteStuckServers_runners,
                server_ids: left,
            }) && b.metrics.desired_nodes == a.metrics.desired_nodes && b.metrics.managed_nodes
                == a.metrics.managed_nodes && b.metrics.node_age_seconds
                == a.metrics.node_age_seconds && b.metrics.node_idle_seconds
                == a.metrics.node_idle_seconds
            &&& left.len() == 0 ==> !(b.stage is DeleteStuckServers)
        }),
        forall|id: Seq<char>| #[trigger]
            a.request(id) == Some(
                RequestView::DeleteStuckServer { server_id: a.stage->server_ids[0] },
            ),
{
}

/// A managed node that is busy or idle has a runner of the name.
pub open spec fn runs_as(nodes: Seq<NodeView>, name: Seq<char>) -> bool {
    exists|k: int|
        0 <= k < nodes.len() && match (#[trigger] nodes[k]).state {
            NodeStateView::Busy { gitea_runner_name, .. } => gitea_runner_name == name,
            NodeStateView::Idle { gitea_runner_name, .. } => gitea_runner_name == name,
            _ => false,
        }
}

/// A runner that could take a job, and that none of the nodes has.
pub open spec fn is_free_elsewhere(r: RunnerView, nodes: Seq<NodeView>) -> bool {
    r.status == "online"@ && !r.busy && carries_linux(r.labels) && !runs_as(nodes, r.name)
}

/// Where the servers that were given up are dealt with, an iteration creates as many servers as
/// there are jobs in demand beyond the idle nodes, the nodes that are provisioning and the free
/// runners elsewhere, as far as the limit on nodes allows. The number of nodes that it is going
/// for is told in the metrics.
#[verifier::rlimit(40)]
pub proof fn an_iteration_scales_up_for_its_demand(
    a: AutoscalerView,
    reply: ReplyView,
    t: Timestamp,
    waiting: int,
    runners: Seq<RunnerView>,
)
    requires
        ({
            ||| a.stage is ListPods && reply is Pods && a.stage->ListPods_waiting == waiting
                && a.stage->ListPods_runners == runners
            ||| a.stage is DeleteStuckServers && a.stage->DeleteStuckServers_waiting == waiting
                && a.stage->DeleteStuckServers_runners == runners
        }),
        !(a.next(reply, t).stage is DeleteStuckServers),
        a.next(reply, t).manager.nodes.len() <= u64::MAX,
        a.config.max_nodes <= u64::MAX,
    ensures
        ({
            let b = a.next(reply, t);
            let nodes = b.manager.nodes;
            let idle = nodes.filter(|n: NodeView| n.state is Idle).len();
            let coming = nodes.filter(|n: NodeView| n.state is Provisioning).len();
            let free = runners.filter(|r: RunnerView| is_free_elsewhere(r, nodes)).len();
            let missing = waiting - idle - coming - free;
            let room = a.config.max_nodes - nodes.len();
            let goal = b.metrics.desired_nodes;
            &&& missing <= 0 || room <= 0 ==> goal == nodes.len() && !(b.stage is CreateServers)
            &&& 0 < missing <= room ==> goal == nodes.len() + missing && b.stage == (
            StageView::CreateServers { now: time_of(a.stage, t), count: missing })
            &&& 0 < room <= missing ==> goal == a.config.max_nodes && b.stage == (
            StageView::CreateServers { now: time_of(a.stage, t), count: room })
        }),
{
    let nodes = a.next(reply, t).manager.nodes;
    let managed = nodes.filter_map(runner_name_of());
    assert(has_permanent_capacity(managed) =~= |r: RunnerView| is_free_elsewhere(r, nodes)) by {
        assert forall|r: RunnerView| #[trigger]
            has_permanent_capacity(managed)(r) == is_free_elsewhere(r, nodes) by {
            managed_runners_are_those_of_busy_and_idle_nodes(nodes, r.name);
            assert(runs_as(nodes, r.name) == managed.contains(r.name));
        }
    }
    servers_are_created_for_jobs_that_no_runner_takes(
        nodes,
        waiting,
        runners.filter(has_permanent_capacity(managed)).len() as int,
        a.config.max_nodes,
    );
}

/// A server that was created becomes the last node, provisioning, under the identity that Hetzner
/// gave it, and is counted as created; one that could not be created is counted as an error. Either
/// way one server less is left to create.
#[verifier::rlimit(40)]
pub proof fn created_servers_become_nodes(a: AutoscalerView, reply: ReplyView, t: Timestamp)
    requires
        a.stage is CreateServers,
        a.stage->count > 0,
        a.metrics.nodes_created_total < u64::MAX,
        a.metrics.scale_up_errors_total < u64::MAX,
    ensures
        ({
            let b = a.next(reply, t);
            &&& reply matches ReplyView::Created(server) ==> {
                &&& b.manager.nodes == a.manager.nodes.push(
                    NodeView {
                        server_id: server.id,
                        server_name: server.name,
                        created_at: server.created,
                        state: NodeStateView::Provisioning,
                    },
                )
                &&& b.metrics.nodes_created_total == a.metrics.nodes_created_total + 1
                &&& b.metrics.scale_up_errors_total == a.metrics.scale_up_errors_total
            }
            &&& !(reply is Created) ==> {
                &&& b.manager.nodes == a.manager.nodes
                &&& b.metrics.nodes_created_total == a.metrics.nodes_created_total
                &&& b.metrics.scale_up_errors_total == a.metrics.scale_up_errors_total + 1
            }
            &&& b.metrics.desired_nodes == a.metrics.desired_nodes
            &&& b.metrics.nodes_deleted_total == a.metrics.nodes_deleted_total
            &&& b.metrics.scale_down_errors_total == a.metrics.scale_down_errors_total
            &&& b.metrics.runners_deregistered_total == a.metrics.runners_deregistered_total
            &&& b.metrics.linux_jobs_waiting == a.metrics.linux_jobs_waiting
            &&& b.metrics.linux_jobs_running == a.metrics.linux_jobs_running
            &&& b.metrics.provisioning_duration == a.metrics.provisioning_duration
            &&& b.ready_servers == a.ready_servers
            &&& a.stage->count > 1 ==> b.stage == (StageView::CreateServers {
                now: a.stage->CreateServers_now,
                count: a.stage->count - 1,
            }) && b.metrics.managed_nodes == a.metrics.managed_nodes && b.metrics.node_age_seconds
                == a.metrics.node_age_seconds && b.metrics.node_idle_seconds
                == a.metrics.node_idle_seconds
            &&& a.stage->count == 1 ==> !(b.stage is CreateServers)
        }),
{
}

/// A node that is to leave at an instant: idle for at least the configured minutes, each of sixty
/// seconds, and in its billing window.
pub open spec fn is_due(a: AutoscalerView, node: NodeView, now: Timestamp) -> bool {
    &&& node.state is Idle
    &&& elapsed_nanos(now, node.state->idle_since) >= a.config.idle_timeout_mins * 60
        * 1_000_000_000
    &&& in_billing_window(node.created_at, now, a.config.billing_window_mins)
}

/// A node that is leaving already.
pub open spec fn is_leaving(node: NodeView) -> bool {
    node.state is Deregistering || node.state is Draining || node.state is Removing
}

/// The positions are those of the nodes that `p` holds of, in ascending order.
pub open spec fn are_positions_of(
    indices: Seq<int>,
    nodes: Seq<NodeView>,
    p: spec_fn(NodeView) -> bool,
) -> bool {
    &&& forall|i: int| 0 <= i < nodes.len() ==> (indices.contains(i) <==> p(#[trigger] nodes[i]))
    &&& forall|k: int|
        0 <= k < indices.len() ==> 0 <= #[trigger] indices[k] < nodes.len()
    &&& forall|k: int, l: int|
        0 <= k < l < indices.len() ==> #[trigger] indices[k] < #[trigger] indices[l]
}

proof fn lemma_positions(
    nodes: Seq<NodeView>,
    p: spec_fn(NodeView) -> bool,
    q: spec_fn(NodeView) -> bool,
)
    requires
        forall|n: NodeView| #[trigger] p(n) == q(n),
    ensures
        are_positions_of(indices_where(nodes, p), nodes, q),
        indices_where(nodes, p).len() == 0 ==> forall|i: int|
            0 <= i < nodes.len() ==> !q(#[trigger] nodes[i]),
{
    let indices = indices_where(nodes, p);
    indices_where_is_exact(nodes, p);
    assert forall|i: int| 0 <= i < nodes.len() implies (indices.contains(i) <==> q(
        #[trigger] nodes[i],
    )) by {
        assert(p(nodes[i]) == q(nodes[i]));
        if indices.contains(i) {
            let k = choose|k: int| 0 <= k < indices.len() && indices[k] == i;
            assert(p(nodes[indices[k]]));
        }
    }
}

/// Once no servers are left to create, teardown starts for all the nodes that are due, and for no
/// others. Where none is due it goes on with all the nodes that are leaving, and for no others;
/// and where none is leaving either, the iteration is over.
#[verifier::rlimit(40)]
pub proof fn teardown_starts_for_all_that_are_due(a: AutoscalerView, reply: ReplyView, t: Timestamp)
    requires
        is_past_the_questions(a.stage, reply),
        !(a.stage is StartTeardown),
        !(a.stage is ContinueTeardown),
        0 <= a.config.idle_timeout_mins,
        a.config.idle_timeout_mins * 60 <= u64::MAX,
    ensures
        ({
            let b = a.next(reply, t);
            let now = time_of(a.stage, t);
            let nodes = b.manager.nodes;
            &&& b.stage matches StageView::StartTeardown { now: at, indices } ==> at == now
                && are_positions_of(indices, nodes, |n: NodeView| is_due(a, n, now))
                && indices.len() > 0
            &&& b.stage is ContinueTeardown || b.stage is Finished ==> forall|i: int|
                0 <= i < nodes.len() ==> !is_due(a, #[trigger] nodes[i], now)
            &&& b.stage matches StageView::ContinueTeardown { now: at, indices } ==> at == now
                && are_positions_of(indices, nodes, |n: NodeView| is_leaving(n)) && indices.len()
                > 0
            &&& b.stage is Finished ==> forall|i: int|
                0 <= i < nodes.len() ==> !is_leaving(#[trigger] nodes[i])
        }),
{
    let b = a.next(reply, t);
    let now = time_of(a.stage, t);
    let nodes = b.manager.nodes;
    let p = is_teardown_candidate(now, a.config.idle_timeout(), a.config.billing_window_mins);
    let due = |n: NodeView| is_due(a, n, now);
    let leaving = |n: NodeView| is_leaving(n);
    assert forall|n: NodeView| #[trigger] p(n) == due(n) by {}
    lemma_positions(nodes, p, due);
    lemma_positions(nodes, is_in_teardown(), leaving);
    if b.stage is ContinueTeardown || b.stage is Finished {
        assert forall|i: int| 0 <= i < nodes.len() implies !is_due(a, #[trigger] nodes[i], now) by {
            assert(!due(nodes[i]));
        }
    }
    if b.stage is Finished {
        assert forall|i: int| 0 <= i < nodes.len() implies !is_leaving(#[trigger] nodes[i]) by {
            assert(!leaving(nodes[i]));
        }
    }
}

/// In an iteration a runner is deleted from Gitea only if it is the runner of a node that has been
/// idle for at least the configured number of minutes, each of sixty seconds, and that is in its
/// billing window.
pub proof fn runners_are_deleted_only_after_the_idle_timeout(
    a: AutoscalerView,
    id: Seq<char>,
    runner_id: u64,
)
    requires
        a.wf(),
        0 <= a.config.idle_timeout_mins,
        a.request(id) == Some(
            RequestView::Teardown(TeardownCallView::DeleteRunner { runner_id }),
        ),
    ensures
        a.stage matches StageView::StartTeardown { now, indices } && {
            let node = a.manager.nodes[indices.last()];
            &&& 0 <= indices.last() < a.manager.nodes.len()
            &&& node.state is Idle
            &&& node.state->Idle_gitea_runner_id == runner_id
            &&& elapsed_nanos(now, node.state->idle_since) >= a.config.idle_timeout_mins * 60
                * 1_000_000_000
            &&& in_billing_window(node.created_at, now, a.config.billing_window_mins)
        },
{
    match a.stage {
        StageView::StartTeardown { now, indices } => {
            assert(indices[indices.len() - 1] == indices.last());
        },
        StageView::ContinueTeardown { now, indices } => {
            assert(indices[indices.len() - 1] == indices.last());
            assert(is_in_teardown()(a.manager.nodes[indices.last()]));
        },
        _ => {},
    }
}

/// Teardown goes from the last position to the first. The call is the one for the node there, and
/// what becomes of the nodes and the metrics is what the call makes of that node; then the next
/// position is up. Where the positions of idle nodes are used up, teardown goes on with all the
/// nodes that are leaving.
#[verifier::rlimit(40)]
pub proof fn teardown_goes_from_the_last_to_the_first(
    a: AutoscalerView,
    reply: ReplyView,
    t: Timestamp,
    id: Seq<char>,
)
    requires
        a.stage is StartTeardown,
        a.stage->StartTeardown_indices.len() > 0,
    ensures
        ({
            let b = a.next(reply, t);
            let now = a.stage->StartTeardown_now;
            let indices = a.stage->StartTeardown_indices;
            let at = indices.last();
            let nodes = b.manager.nodes;
            let counted = metrics_after_teardown_call(
                a.metrics,
                a.manager.nodes[at].state,
                reply is Done,
            );
            &&& match next_teardown_call(a.manager.nodes[at]) {
                Some(call) => a.request(id) == Some(RequestView::Teardown(call)),
                None => a.request(id) is None,
            }
            &&& nodes == nodes_after_teardown_call(a.manager.nodes, at, reply is Done)
            &&& b.ready_servers == a.ready_servers
            &&& indices.len() > 1 ==> b.metrics == counted && b.stage == (
            StageView::StartTeardown { now, indices: indices.drop_last() })
            &&& indices.len() == 1 ==> b.stage is ContinueTeardown || b.stage == (
            StageView::Finished { succeeded: true })
            &&& b.stage matches StageView::ContinueTeardown { now: then, indices: left } ==> then
                == now && b.metrics == counted && left.len() > 0 && are_positions_of(
                left,
                nodes,
                |n: NodeView| is_leaving(n),
            )
            &&& b.stage is Finished ==> b.metrics == metrics_of_nodes(counted, nodes, now)
                && forall|i: int| 0 <= i < nodes.len() ==> !is_leaving(#[trigger] nodes[i])
        }),
{
    let nodes = a.next(reply, t).manager.nodes;
    let leaving = |n: NodeView| is_leaving(n);
    lemma_positions(nodes, is_in_teardown(), leaving);
    if a.next(reply, t).stage is Finished {
        assert forall|i: int| 0 <= i < nodes.len() implies !is_leaving(#[trigger] nodes[i]) by {
            assert(!leaving(nodes[i]));
        }
    }
}

/// Nodes that are leaving go on in the same way, one call each; but where a node was just taken
/// from the cluster, the same position comes again, for its server. Then the iteration is over.
#[verifier::rlimit(40)]
pub proof fn leaving_nodes_go_on_from_the_last_to_the_first(
    a: AutoscalerView,
    reply: ReplyView,
    t: Timestamp,
    id: Seq<char>,
)
    requires
        a.stage is ContinueTeardown,
        a.stage->ContinueTeardown_indices.len() > 0,
    ensures
        ({
            let b = a.next(reply, t);
            let now = a.stage->ContinueTeardown_now;
            let indices = a.stage->ContinueTeardown_indices;
            let at = indices.last();
            let node = a.manager.nodes[at];
            let counted = metrics_after_teardown_call(a.metrics, node.state, reply is Done);
            let again = node.state is Draining && reply is Done;
            &&& match next_teardown_call(node) {
                Some(call) => a.request(id) == Some(RequestView::Teardown(call)),
                None => a.request(id) is None,
            }
            &&& b.manager.nodes == nodes_after_teardown_call(a.manager.nodes, at, reply is Done)
            &&& b.ready_servers == a.ready_servers
            &&& again ==> b.stage == a.stage && b.metrics == counted
            &&& !again && indices.len() > 1 ==> b.metrics == counted && b.stage == (
            StageView::ContinueTeardown { now, indices: indices.drop_last() })
            &&& !again && indices.len() == 1 ==> b.stage == (StageView::Finished {
                succeeded: true,
            }) && b.metrics == metrics_of_nodes(counted, b.manager.nodes, now)
        }),
{
}

/// Where an iteration that got past its questions is over, the metrics describe the nodes as they
/// are then, at the instant the iteration went by: telling them again would change nothing.
#[verifier::rlimit(40)]
pub proof fn metrics_describe_the_nodes_at_the_end(
    a: AutoscalerView,
    reply: ReplyView,
    t: Timestamp,
)
    requires
        is_past_the_questions(a.stage, reply),
        a.next(reply, t).stage is Finished,
    ensures
        ({
            let b = a.next(reply, t);
            &&& b.metrics == metrics_of_nodes(b.metrics, b.manager.nodes, time_of(a.stage, t))
            &&& b.stage == (StageView::Finished { succeeded: true })
        }),
{
    let b = a.next(reply, t);
    let again = metrics_of_nodes(b.metrics, b.manager.nodes, time_of(a.stage, t));
    assert(again.managed_nodes =~= b.metrics.managed_nodes);
}

/// A reply can be taken in exactly if its times are valid, the jobs in demand can be counted, and,
/// once the pods are known, the timeouts can be held against spans between two instants: the
/// provisioning timeout in any case, the idle timeout if one of the planned nodes is idle.
pub proof fn replies_that_can_be_taken_in(a: AutoscalerView, reply: ReplyView, now: Timestamp)
    requires
        0 <= a.config.idle_timeout_mins,
        a.config.idle_timeout_mins * 60 <= u64::MAX,
        0 <= a.config.provisioning_timeout_secs <= u64::MAX,
        reply.wf(),
    ensures
        a.accepts(reply, now) <==> match (a.stage, reply) {
            (StageView::ListQueuedJobs { waiting }, ReplyView::Jobs(jobs)) => waiting
                + jobs_with_linux(jobs) <= usize::MAX,
            (StageView::ListPods { servers, .. }, ReplyView::Pods(pods)) => {
                let plan = planned(
                    servers,
                    reported(a, pods, now),
                    a.manager.nodes,
                    a.ready_servers,
                );
                &&& a.config.provisioning_timeout_secs * 1_000_000_000
                    <= 9_223_372_036_854_775_807 * 1_000_000
                &&& (exists|i: int|
                    0 <= i < plan.nodes.len() && (#[trigger] plan.nodes[i]).state is Idle)
                    ==> a.config.idle_timeout_mins * 60 * 1_000_000_000
                    <= 9_223_372_036_854_775_807 * 1_000_000
            },
            _ => true,
        },
{
    assert(for_linux() =~= |j: JobView| carries_linux(j.labels));
}

/// Where no two previous nodes stood for the same server: a previous node whose server is not
/// reported, or reported as stuck, stays known exactly if it is being removed, or is provisioning
/// and its age is below the timeout.
pub proof fn nodes_that_are_not_reported_stay_known_for_a_while(
    servers: Seq<ServerView>,
    seen: Observation,
    previous: Seq<NodeView>,
    i: int,
)
    requires
        own_servers(previous),
        0 <= i < previous.len(),
        forall|k: int|
            0 <= k < servers.len() && observed_node(seen)(#[trigger] servers[k]) is Some
                ==> servers[k].id != previous[i].server_id,
    ensures
        ({
            let node = previous[i];
            let limit = seen.timeout.secs * 1_000_000_000 + seen.timeout.nanos;
            known_nodes(servers, seen, previous).contains(node) <==> node.state is Removing || (
            node.state is Provisioning && elapsed_nanos(seen.now, node.created_at) < limit)
        }),
{
    let fresh = servers.filter_map(observed_node(seen));
    let carried = fresh.map_values(carried_node(previous));
    assert forall|k: int| 0 <= k < carried.len() implies (#[trigger] carried[k]).server_id
        != previous[i].server_id by {
        assert(fresh.contains(fresh[k]));
        lemma_filter_map_is_exact(servers, observed_node(seen), fresh[k]);
        let m = choose|m: int|
            0 <= m < servers.len() && observed_node(seen)(#[trigger] servers[m]) == Some(fresh[k]);
        assert(fresh[k].server_id == servers[m].id);
        assert(carried[k] == carried_node(previous)(fresh[k]));
    }
    unseen_nodes_are_kept_deleted_or_given_up(carried, previous, seen.now, seen.timeout, i);
}

/// An iteration can begin whenever the instants of the nodes are valid and the idle timeout can be
/// told in seconds.
pub proof fn an_iteration_can_begin_at_any_time(a: AutoscalerView)
    requires
        a.stage is ListWaitingJobs || a.stage is Finished,
    ensures
        a.wf() <==> a.config.idle_timeout_mins * 60 <= 0xffff_ffff_ffff_ffff && forall|i: int|
            0 <= i < a.manager.nodes.len() ==> (#[trigger] a.manager.nodes[i]).created_at.wf() && (
            a.manager.nodes[i].state is Idle ==> a.manager.nodes[i].state->idle_since.wf()),
{
    if a.wf() {
        assert forall|i: int| 0 <= i < a.manager.nodes.len() implies (
        #[trigger] a.manager.nodes[i]).created_at.wf() && (a.manager.nodes[i].state is Idle
            ==> a.manager.nodes[i].state->idle_since.wf()) by {
            assert(a.nodes()[i].wf());
        }
    }
}

/// An iteration that is over stays as it is, whatever comes in.
pub proof fn nothing_happens_after_the_end(a: AutoscalerView, reply: ReplyView, t: Timestamp)
    requires
        a.stage is Finished,
    ensures
        a.next(reply, t) == a,
{
}

/// A reply is valid exactly if the servers in it, listed or created, have valid times of creation.
pub proof fn replies_are_valid_if_their_times_are(reply: ReplyView)
    ensures
        reply.wf() <==> match reply {
            ReplyView::Servers(servers) => forall|i: int|
                0 <= i < servers.len() ==> (#[trigger] servers[i]).created.wf(),
            ReplyView::Created(server) => server.created.wf(),
            _ => true,
        },
{
}

/// Every node that is due has its runner deleted in the same iteration: after any number of calls,
/// however they ended, the next call is for the last of the positions that are left.
#[verifier::rlimit(40)]
pub proof fn due_nodes_leave_in_turn(a: AutoscalerView, events: Seq<Event>, id: Seq<char>)
    requires
        a.wf(),
        a.stage is StartTeardown,
        events.len() < a.stage->StartTeardown_indices.len(),
    ensures
        ({
            let indices = a.stage->StartTeardown_indices;
            let node = a.manager.nodes[indices[indices.len() - 1 - events.len()]];
            &&& node.state is Idle
            &&& a.run(events).request(id) == Some(
                RequestView::Teardown(
                    TeardownCallView::DeleteRunner {
                        runner_id: node.state->Idle_gitea_runner_id,
                    },
                ),
            )
        }),
{
    lemma_due_nodes_left(a, events);
    let indices = a.stage->StartTeardown_indices;
    let left = indices.take(indices.len() - events.len());
    assert(left.last() == indices[indices.len() - 1 - events.len()]);
}

#[verifier::rlimit(40)]
proof fn lemma_due_nodes_left(a: AutoscalerView, events: Seq<Event>)
    requires
        a.wf(),
        a.stage is StartTeardown,
        events.len() < a.stage->StartTeardown_indices.len(),
    ensures
        ({
            let b = a.run(events);
            let indices = a.stage->StartTeardown_indices;
            let left = indices.take(indices.len() - events.len());
            &&& b.stage is StartTeardown
            &&& b.stage->StartTeardown_indices == left
            &&& b.manager.nodes.len() == a.manager.nodes.len()
            &&& forall|k: int|
                0 <= k < left.len() ==> b.manager.nodes[#[trigger] left[k]]
                    == a.manager.nodes[indices[k]]
        }),
    decreases events.len(),
{
    let indices = a.stage->StartTeardown_indices;
    if events.len() == 0 {
        assert(indices.take(indices.len() as int) =~= indices);
    } else {
        let init = events.drop_last();
        lemma_due_nodes_left(a, init);
        let b = a.run(init);
        let c = a.run(events);
        let before = indices.take(indices.len() - init.len());
        let left = indices.take(indices.len() - events.len());
        let at = before.last();
        assert(before.drop_last() =~= left);
        assert(at == indices[before.len() - 1]);
        assert(before[before.len() - 1] == at);
        assert(b.manager.nodes[at] == a.manager.nodes[at]);
        assert(a.manager.nodes[at].state is Idle);
        assert(c.manager.nodes == nodes_after_teardown_call(
            b.manager.nodes,
            at,
            events.last().reply is Done,
        ));
        assert forall|k: int| 0 <= k < left.len() implies c.manager.nodes[#[trigger] left[k]]
            == a.manager.nodes[indices[k]] by {
            assert(before[k] == left[k]);
            assert(indices[k] < indices[before.len() - 1]);
        }
    }
}

/// As many servers are ordered as are needed, one call each, whether or not the calls succeed.
#[verifier::rlimit(40)]
pub proof fn servers_are_ordered_in_turn(a: AutoscalerView, events: Seq<Event>, id: Seq<char>)
    requires
        a.stage is CreateServers,
        events.len() < a.stage->count,
    ensures
        a.run(events).stage == (StageView::CreateServers {
            now: a.stage->CreateServers_now,
            count: a.stage->count - events.len(),
        }),
        a.run(events).request(id) is Some,
        a.run(events).request(id)->0 is CreateServer,
    decreases events.len(),
{
    if events.len() > 0 {
        servers_are_ordered_in_turn(a, events.drop_last(), id);
    }
}

} // verus!
