//! What is read from the services, stated of what they report.

use vstd::prelude::*;

use crate::gitea::{
    for_linux, is_linux_job, linux_count, Job, JobPagerView, JobStatus, JobView, Runner, RunnerView,
};
use crate::hetzner::{
    all_or_first_error, read_each, read_server, selector, ApiServer, ApiServerView,
    HetznerErrorView, HetznerServer, MANAGED_BY_LABEL, MANAGED_BY_VALUE,
};
use crate::k8s::{
    control_plane_ip, eviction_of, is_internal_ip, text_or, ControlPlaneError, K8sNode, K8sPod,
    NodeAddress, PodToDrainView,
};
use crate::seqs::{lemma_filter_map_last, lemma_find_first_at, lemma_find_first_none, views};
use crate::time::{parsed_instant, Timestamp, TimestampError};

verus! {

/// One of the labels is `linux`.
pub open spec fn carries_linux(labels: Seq<Seq<char>>) -> bool {
    exists|k: int| 0 <= k < labels.len() && #[trigger] labels[k] == "linux"@
}

/// A job or a runner is for Linux exactly if one of its labels is `linux`, whatever else it
/// carries.
pub proof fn linux_is_a_label(job: JobView, runner: RunnerView)
    ensures
        job.is_linux() <==> carries_linux(job.labels),
        runner.is_linux() <==> carries_linux(runner.labels),
{
}

/// Jobs are kept or left out one by one, by their own labels, and the number of jobs for Linux is
/// the number of those that are kept.
pub proof fn jobs_are_kept_by_their_labels(jobs: Seq<JobView>, job: JobView)
    ensures
        Seq::<JobView>::empty().filter(for_linux()).len() == 0,
        carries_linux(job.labels) ==> jobs.push(job).filter(for_linux()) == jobs.filter(
            for_linux(),
        ).push(job) && linux_count(jobs.push(job)) == linux_count(jobs) + 1,
        !carries_linux(job.labels) ==> jobs.push(job).filter(for_linux()) == jobs.filter(
            for_linux(),
        ) && linux_count(jobs.push(job)) == linux_count(jobs),
        linux_count(Seq::empty()) == 0,
{
    reveal(Seq::filter);
    assert(jobs.push(job).drop_last() =~= jobs);
}

/// The same holds of the jobs themselves.
pub proof fn jobs_are_for_linux_by_their_labels(job: Job)
    ensures
        is_linux_job()(job) <==> exists|k: int|
            0 <= k < job.labels@.len() && (#[trigger] job.labels@[k])@ == "linux"@,
{
    let labels = views(job.labels@);
    assert forall|k: int| 0 <= k < labels.len() implies labels[k] == (
    #[trigger] job.labels@[k])@ by {}
    if labels.contains("linux"@) {
        let k = choose|k: int| 0 <= k < labels.len() && labels[k] == "linux"@;
        assert(job.labels@[k]@ == "linux"@);
    }
    if exists|k: int| 0 <= k < job.labels@.len() && (#[trigger] job.labels@[k])@ == "linux"@ {
        let k = choose|k: int|
            0 <= k < job.labels@.len() && (#[trigger] job.labels@[k])@ == "linux"@;
        assert(labels[k] == "linux"@);
    }
}

/// A status is written as Gitea writes it.
pub proof fn statuses_are_written_as_gitea_does(status: JobStatus)
    ensures
        status.text() == "waiting"@ <==> status == JobStatus::Waiting,
        status.text() == "queued"@ <==> status == JobStatus::Queued,
        status.text() == "in_progress"@ <==> status == JobStatus::InProgress,
{
    reveal_strlit("waiting");
    reveal_strlit("queued");
    reveal_strlit("in_progress");
    assert("waiting"@.len() == 7);
    assert("queued"@.len() == 6);
    assert("in_progress"@.len() == 11);
}

/// A page of fifty jobs or more is followed by the next one, and a shorter one is the last. The
/// jobs of a page come after those of the earlier pages, none left out.
pub proof fn full_pages_are_followed_by_another(pager: JobPagerView, page: Seq<Job>)
    ensures
        pager.after_page(page).jobs == pager.jobs + page,
        pager.after_page(page).status == pager.status,
        page.len() >= 50 ==> pager.after_page(page).page == pager.page + 1 && !pager.after_page(
            page,
        ).complete,
        page.len() < 50 ==> pager.after_page(page).page == pager.page && pager.after_page(
            page,
        ).complete,
        JobPagerView::first(pager.status) == (JobPagerView {
            status: pager.status,
            page: 1,
            jobs: Seq::empty(),
            complete: false,
        }),
{
}

/// A report is read as the server that it names, created at the instant that its text stands for;
/// where the text stands for none, the error tells the text and what is wrong with it.
pub proof fn reports_are_read_as_they_stand(
    api: ApiServerView,
    created: Timestamp,
    error: TimestampError,
)
    ensures
        read_server(api, Ok((created.secs, created.nanos))) matches Ok(server) && {
            &&& server.id == api.id
            &&& server.name == api.name
            &&& server.created == created
            &&& server.labels == api.labels
        },
        read_server(api, Err(error)) matches Err(e) && {
            &&& e == (HetznerErrorView::InvalidTimestamp { text: api.created, error })
            &&& e.text() == error.text()
        },
{
}

/// All the values come out, in order, exactly if none of the results is an error.
pub proof fn one_error_spoils_them_all<T, E>(results: Seq<Result<T, E>>)
    ensures
        all_or_first_error(results) is Ok <==> forall|i: int|
            0 <= i < results.len() ==> #[trigger] results[i] is Ok,
        all_or_first_error(results) matches Ok(values) ==> values.len() == results.len()
            && forall|i: int|
            0 <= i < values.len() ==> #[trigger] results[i] == Ok::<T, E>(values[i]),
    decreases results.len(),
{
    if results.len() > 0 {
        let init = results.drop_last();
        one_error_spoils_them_all(init);
        if all_or_first_error(results) is Ok {
            let values = all_or_first_error(results)->Ok_0;
            assert forall|i: int| 0 <= i < values.len() implies #[trigger] results[i] == Ok::<T, E>(
                values[i],
            ) by {
                if i < init.len() {
                    assert(init[i] == results[i]);
                }
            }
        } else if all_or_first_error(init) is Err {
            let i = choose|i: int| 0 <= i < init.len() && !(#[trigger] init[i] is Ok);
            assert(!(results[i] is Ok));
        } else {
            assert(!(results[results.len() - 1] is Ok));
        }
    }
}

/// The error that comes out is the first one.
pub proof fn the_first_error_counts<T, E>(results: Seq<Result<T, E>>, at: int, error: E)
    requires
        0 <= at < results.len(),
        results[at] == Err::<T, E>(error),
        forall|i: int| 0 <= i < at ==> #[trigger] results[i] is Ok,
    ensures
        all_or_first_error(results) == Err::<Seq<T>, E>(error),
    decreases results.len(),
{
    let init = results.drop_last();
    if at < results.len() - 1 {
        assert forall|i: int| 0 <= i < at implies #[trigger] init[i] is Ok by {
            assert(results[i] is Ok);
        }
        the_first_error_counts(init, at, error);
    } else {
        one_error_spoils_them_all(init);
        assert forall|i: int| 0 <= i < init.len() implies #[trigger] init[i] is Ok by {
            assert(results[i] is Ok);
        }
    }
}

/// Servers are selected by the label that every one of them is ordered with.
pub proof fn servers_are_selected_by_their_label(label: Seq<char>, value: Seq<char>)
    ensures
        selector(label, value).len() == label.len() + 1 + value.len(),
        selector(label, value).take(label.len() as int) == label,
        selector(label, value)[label.len() as int] == '=',
        selector(label, value).skip(label.len() as int + 1) == value,
        selector(MANAGED_BY_LABEL@, MANAGED_BY_VALUE@) == "managed-by=gitea-ci-autoscaler"@,
{
    reveal_strlit("=");
    assert(selector(label, value).take(label.len() as int) =~= label);
    assert(selector(label, value).skip(label.len() as int + 1) =~= value);
    reveal_strlit("managed-by=gitea-ci-autoscaler");
    reveal_strlit("managed-by");
    reveal_strlit("gitea-ci-autoscaler");
    assert(selector(MANAGED_BY_LABEL@, MANAGED_BY_VALUE@) =~= "managed-by=gitea-ci-autoscaler"@);
}

/// Draining a node evicts its pods one by one, in their order: every pod but those that mirror a
/// static pod and those that a `DaemonSet` owns. A pod without a namespace is in the default one.
pub proof fn pods_are_evicted_but_for_mirrors_and_daemons(
    pods: Seq<PodToDrainView>,
    pod: PodToDrainView,
)
    ensures
        ({
            let mirror = exists|k: int|
                0 <= k < pod.annotations.len() && #[trigger] pod.annotations[k]
                    == "kubernetes.io/config.mirror"@;
            let daemon = exists|k: int|
                0 <= k < pod.owner_kinds.len() && #[trigger] pod.owner_kinds[k] == "DaemonSet"@;
            let before = pods.filter_map(eviction_of());
            let after = pods.push(pod).filter_map(eviction_of());
            &&& mirror || daemon ==> after == before
            &&& !mirror && !daemon ==> {
                &&& after.len() == before.len() + 1
                &&& after.drop_last() == before
                &&& pod.namespace matches Some(namespace) ==> after.last().namespace == namespace@
                &&& pod.namespace is None ==> after.last().namespace == "default"@
                &&& pod.name matches Some(name) ==> after.last().pod_name == name@
                &&& pod.name is None ==> after.last().pod_name.len() == 0
            }
        }),
        Seq::<PodToDrainView>::empty().filter_map(eviction_of()).len() == 0,
{
    lemma_filter_map_last(pods.push(pod), eviction_of());
    assert(pods.push(pod).drop_last() =~= pods);
    let after = pods.push(pod).filter_map(eviction_of());
    let before = pods.filter_map(eviction_of());
    if after.len() > before.len() {
        assert(after.drop_last() =~= before);
    }
}

/// A text that is there is taken as it is, and the default stands for one that is not.
pub proof fn defaults_stand_for_missing_texts(text: String, default: Seq<char>)
    ensures
        text_or(Some(text), default) == text@,
        text_or(None, default) == default,
{
}

/// New servers reach the control plane at the first internal address of its first node. Other
/// nodes and other addresses do not matter.
pub proof fn the_control_plane_is_at_the_first_internal_address(
    nodes: Seq<Option<Vec<NodeAddress>>>,
    at: int,
)
    ensures
        nodes.len() == 0 ==> control_plane_ip(nodes) == Err::<Seq<char>, _>(
            ControlPlaneError::NoNode,
        ),
        nodes.len() > 0 && nodes[0] is None ==> control_plane_ip(nodes) == Err::<Seq<char>, _>(
            ControlPlaneError::NoAddresses,
        ),
        nodes.len() > 0 && nodes[0] is Some && (forall|j: int|
            0 <= j < nodes[0]->0@.len() ==> (#[trigger] nodes[0]->0@[j]).kind@ != "InternalIP"@)
            ==> control_plane_ip(nodes) == Err::<Seq<char>, _>(ControlPlaneError::NoInternalIp),
        nodes.len() > 0 && nodes[0] is Some && 0 <= at < nodes[0]->0@.len()
            && nodes[0]->0@[at].kind@ == "InternalIP"@ && (forall|j: int|
            0 <= j < at ==> (#[trigger] nodes[0]->0@[j]).kind@ != "InternalIP"@)
            ==> control_plane_ip(nodes) == Ok::<_, ControlPlaneError>(nodes[0]->0@[at].address@),
{
    if nodes.len() > 0 && nodes[0] is Some {
        let addresses = nodes[0]->0@;
        let all = views(addresses);
        assert forall|j: int| 0 <= j < all.len() implies (#[trigger] all[j])
            == addresses[j]@ by {}
        if forall|j: int|
            0 <= j < addresses.len() ==> (#[trigger] addresses[j]).kind@ != "InternalIP"@ {
            lemma_find_first_none(all, is_internal_ip());
        }
        if 0 <= at < addresses.len() && addresses[at].kind@ == "InternalIP"@ && (forall|j: int|
            0 <= j < at ==> (#[trigger] addresses[j]).kind@ != "InternalIP"@) {
            lemma_find_first_at(all, is_internal_ip(), at);
        }
    }
}

/// The servers that a list of reports is read as stand in the order of the reports, each with the
/// identity of its report and the instant that its text stands for.
pub proof fn lists_are_read_report_by_report(apis: Seq<ApiServerView>, i: int)
    requires
        0 <= i < apis.len(),
    ensures
        all_or_first_error(read_each(apis)) matches Ok(servers) ==> {
            &&& servers.len() == apis.len()
            &&& servers[i].id == apis[i].id
            &&& servers[i].name == apis[i].name
            &&& servers[i].labels == apis[i].labels
            &&& parsed_instant(apis[i].created) == Ok::<(i64, u32), TimestampError>(
                (servers[i].created.secs, servers[i].created.nanos),
            )
        },
        parsed_instant(apis[i].created) is Err ==> all_or_first_error(read_each(apis)) is Err,
        (forall|j: int| 0 <= j < apis.len() ==> parsed_instant((#[trigger] apis[j]).created) is Ok)
            ==> all_or_first_error(read_each(apis)) is Ok,
{
    let results = read_each(apis);
    one_error_spoils_them_all(results);
    assert(results[i] == read_server(apis[i], parsed_instant(apis[i].created)));
    if forall|j: int| 0 <= j < apis.len() ==> parsed_instant((#[trigger] apis[j]).created) is Ok {
        assert forall|j: int| 0 <= j < results.len() implies #[trigger] results[j] is Ok by {
            assert(parsed_instant(apis[j].created) is Ok);
        }
    }
}

/// The contracts speak of jobs and runners as they are reported.
pub proof fn jobs_and_runners_are_seen_as_reported(job: Job, runner: Runner)
    ensures
        job@.id == job.id,
        job@.name == job.name@,
        job@.status == job.status@,
        job@.runner_id == job.runner_id,
        job@.labels.len() == job.labels@.len(),
        forall|k: int|
            0 <= k < job.labels@.len() ==> job@.labels[k] == (#[trigger] job.labels@[k])@,
        runner@.id == runner.id,
        runner@.name == runner.name@,
        runner@.status == runner.status@,
        runner@.busy == runner.busy,
        runner@.labels.len() == runner.labels@.len(),
        forall|k: int|
            0 <= k < runner.labels@.len() ==> runner@.labels[k] == (
            #[trigger] runner.labels@[k]).name@,
{
}

/// The contracts speak of nodes, pods and servers as they are reported.
pub proof fn the_cluster_is_seen_as_reported(
    node: K8sNode,
    pod: K8sPod,
    server: HetznerServer,
    api: ApiServer,
)
    ensures
        node@.name == node.name@,
        node@.unschedulable == node.unschedulable,
        pod@.name == pod.name@,
        pod@.namespace == pod.namespace@,
        pod.node_name is None <==> pod@.node_name is None,
        pod.node_name matches Some(name) ==> pod@.node_name == Some(name@),
        server@.id == server.id,
        server@.name == server.name@,
        server@.created == server.created,
        server@.labels == server.labels@,
        api@.id == api.id,
        api@.name == api.name@,
        api@.created == api.created@,
        api@.labels == api.labels@,
{
}

} // verus!
