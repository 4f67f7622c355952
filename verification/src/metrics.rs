//! The numbers that the autoscaler reports about itself.
//!
//! They are kept as integers here; what exports them turns them into samples.

use vstd::prelude::*;

use crate::text::same_text;

verus! {

/// One value of a labelled gauge.
#[derive(Debug, Clone)]
pub struct Gauge {
    pub label: String,
    pub value: u64,
}

/// A gauge with one label: a value for each label that was set since the last reset.
#[derive(Debug, Clone)]
pub struct GaugeFamily {
    entries: Vec<Gauge>,
}

impl View for GaugeFamily {
    type V = Map<Seq<char>, u64>;

    closed spec fn view(&self) -> Map<Seq<char>, u64> {
        gauge_map(self.entries@)
    }
}

spec fn at_label(entries: Seq<Gauge>, label: Seq<char>, i: int) -> bool {
    0 <= i < entries.len() && entries[i].label@ == label
}

spec fn gauge_map(entries: Seq<Gauge>) -> Map<Seq<char>, u64> {
    Map::new(
        |label: Seq<char>| exists|i: int| at_label(entries, label, i),
        |label: Seq<char>| entries[choose|i: int| at_label(entries, label, i)].value,
    )
}

impl GaugeFamily {
    /// No label occurs twice.
    pub closed spec fn wf(self) -> bool {
        forall|i: int, j: int|
            0 <= i < j < self.entries@.len() ==> (#[trigger] self.entries@[i]).label@ != (
            #[trigger] self.entries@[j]).label@
    }

    pub fn new() -> (r: GaugeFamily)
        ensures
            r.wf(),
            r@ == Map::<Seq<char>, u64>::empty(),
    {
        let r = GaugeFamily { entries: Vec::new() };
        assert(r@ =~= Map::<Seq<char>, u64>::empty());
        r
    }

    /// Forget every value.
    pub fn reset(&mut self)
        ensures
            final(self).wf(),
            final(self)@ == Map::<Seq<char>, u64>::empty(),
    {
        self.entries.clear();
        assert(gauge_map(self.entries@) =~= Map::<Seq<char>, u64>::empty());
    }

    /// Set the value at a label, whether or not it had one.
    pub fn set(&mut self, label: &str, value: u64)
        requires
            old(self).wf(),
        ensures
            final(self).wf(),
            final(self)@ == old(self)@.insert(label@, value),
    {
        let ghost before = self.entries@;
        let mut i: usize = 0;
        while i < self.entries.len()
            invariant
                0 <= i <= self.entries@.len(),
                self.entries@ == before,
                old(self).entries@ == before,
                old(self).wf(),
                forall|j: int| 0 <= j < i ==> (#[trigger] before[j]).label@ != label@,
            decreases self.entries@.len() - i,
        {
            if same_text(self.entries[i].label.as_str(), label) {
                self.entries[i].value = value;
                proof {
                    lemma_gauge_update(before, i as int, label@, value, self.entries@);
                }
                return ;
            }
            i = i + 1;
        }
        self.entries.push(Gauge { label: label.to_owned(), value });
        proof {
            lemma_gauge_push(before, self.entries@, label@, value);
        }
    }

    /// The value at a label, if it was set.
    pub fn get(&self, label: &str) -> (r: Option<u64>)
        requires
            self.wf(),
        ensures
            match r {
                Some(value) => self@.contains_key(label@) && self@[label@] == value,
                None => !self@.contains_key(label@),
            },
    {
        let mut i: usize = 0;
        while i < self.entries.len()
            invariant
                0 <= i <= self.entries@.len(),
                forall|j: int| 0 <= j < i ==> (#[trigger] self.entries@[j]).label@ != label@,
                self.wf(),
            decreases self.entries@.len() - i,
        {
            if same_text(self.entries[i].label.as_str(), label) {
                assert(at_label(self.entries@, label@, i as int));
                let ghost k = choose|k: int| at_label(self.entries@, label@, k);
                assert(at_label(self.entries@, label@, k));
                assert(k == i);
                return Some(self.entries[i].value);
            }
            i = i + 1;
        }
        None
    }

    /// The labels and their values.
    pub fn values(&self) -> (r: &Vec<Gauge>)
        requires
            self.wf(),
        ensures
            forall|i: int|
                0 <= i < r@.len() ==> self@.contains_key((#[trigger] r@[i]).label@)
                    && self@[r@[i].label@] == r@[i].value,
            forall|label: Seq<char>| #[trigger]
                self@.contains_key(label) ==> exists|i: int|
                    0 <= i < r@.len() && (#[trigger] r@[i]).label@ == label,
            forall|i: int, j: int|
                0 <= i < j < r@.len() ==> (#[trigger] r@[i]).label@ != (#[trigger] r@[j]).label@,
    {
        assert forall|i: int| 0 <= i < self.entries@.len() implies self@.contains_key(
            (#[trigger] self.entries@[i]).label@,
        ) && self@[self.entries@[i].label@] == self.entries@[i].value by {
            let label = self.entries@[i].label@;
            assert(at_label(self.entries@, label, i));
            let k = choose|k: int| at_label(self.entries@, label, k);
            assert(at_label(self.entries@, label, k));
            assert(k == i);
        }
        assert forall|label: Seq<char>| #[trigger] self@.contains_key(label) implies exists|i: int|
            0 <= i < self.entries@.len() && (#[trigger] self.entries@[i]).label@ == label by {
            let k = choose|k: int| at_label(self.entries@, label, k);
            assert(at_label(self.entries@, label, k));
        }
        &self.entries
    }
}

proof fn lemma_gauge_update(
    before: Seq<Gauge>,
    at: int,
    label: Seq<char>,
    value: u64,
    after: Seq<Gauge>,
)
    requires
        0 <= at < before.len(),
        before[at].label@ == label,
        after.len() == before.len(),
        after[at].label@ == label,
        after[at].value == value,
        forall|j: int| 0 <= j < before.len() && j != at ==> after[j] == before[j],
        forall|i: int, j: int|
            0 <= i < j < before.len() ==> (#[trigger] before[i]).label@ != (
            #[trigger] before[j]).label@,
    ensures
        gauge_map(after) == gauge_map(before).insert(label, value),
        forall|i: int, j: int|
            0 <= i < j < after.len() ==> (#[trigger] after[i]).label@ != (
            #[trigger] after[j]).label@,
{
    assert forall|i: int| 0 <= i < after.len() implies (#[trigger] after[i]).label@
        == before[i].label@ by {}
    assert forall|i: int, j: int| 0 <= i < j < after.len() implies (#[trigger] after[i]).label@ != (
    #[trigger] after[j]).label@ by {
        assert(before[i].label@ != before[j].label@);
    }
    assert forall|l: Seq<char>|
        gauge_map(after).contains_key(l) == gauge_map(before).insert(label, value).contains_key(
            l,
        ) by {
        if exists|i: int| at_label(after, l, i) {
            let i = choose|i: int| at_label(after, l, i);
            assert(at_label(before, l, i));
        }
        if exists|i: int| at_label(before, l, i) {
            let i = choose|i: int| at_label(before, l, i);
            assert(at_label(after, l, i));
        }
        assert(at_label(after, label, at));
    }
    assert forall|l: Seq<char>| #[trigger] gauge_map(after).contains_key(l) implies gauge_map(
        after,
    )[l] == gauge_map(before).insert(label, value)[l] by {
        let i = choose|i: int| at_label(after, l, i);
        assert(at_label(after, l, i));
        assert(at_label(before, l, i));
        let k = choose|k: int| at_label(before, l, k);
        assert(at_label(before, l, k));
        assert(i == k) by {
            if i < k {
                assert(before[i].label@ != before[k].label@);
            } else if k < i {
                assert(before[k].label@ != before[i].label@);
            }
        }
        if l == label {
            assert(i == at) by {
                if i < at {
                    assert(before[i].label@ != before[at].label@);
                } else if at < i {
                    assert(before[at].label@ != before[i].label@);
                }
            }
        }
    }
    assert(gauge_map(after) =~= gauge_map(before).insert(label, value));
}

proof fn lemma_gauge_push(before: Seq<Gauge>, after: Seq<Gauge>, label: Seq<char>, value: u64)
    requires
        after.len() == before.len() + 1,
        after.last().label@ == label,
        after.last().value == value,
        forall|j: int| 0 <= j < before.len() ==> after[j] == before[j],
        forall|j: int| 0 <= j < before.len() ==> (#[trigger] before[j]).label@ != label,
        forall|i: int, j: int|
            0 <= i < j < before.len() ==> (#[trigger] before[i]).label@ != (
            #[trigger] before[j]).label@,
    ensures
        gauge_map(after) == gauge_map(before).insert(label, value),
        forall|i: int, j: int|
            0 <= i < j < after.len() ==> (#[trigger] after[i]).label@ != (
            #[trigger] after[j]).label@,
{
    let last = before.len() as int;
    assert forall|i: int, j: int| 0 <= i < j < after.len() implies (#[trigger] after[i]).label@ != (
    #[trigger] after[j]).label@ by {
        if j < last {
            assert(before[i].label@ != before[j].label@);
        } else {
            assert(before[i].label@ != label);
        }
    }
    assert forall|l: Seq<char>|
        gauge_map(after).contains_key(l) == gauge_map(before).insert(label, value).contains_key(
            l,
        ) by {
        if exists|i: int| at_label(after, l, i) {
            let i = choose|i: int| at_label(after, l, i);
            if i < last {
                assert(at_label(before, l, i));
            }
        }
        if exists|i: int| at_label(before, l, i) {
            let i = choose|i: int| at_label(before, l, i);
            assert(at_label(after, l, i));
        }
        assert(at_label(after, label, last));
    }
    assert forall|l: Seq<char>| #[trigger] gauge_map(after).contains_key(l) implies gauge_map(
        after,
    )[l] == gauge_map(before).insert(label, value)[l] by {
        let i = choose|i: int| at_label(after, l, i);
        assert(at_label(after, l, i));
        if l == label {
            assert(i == last) by {
                if i < last {
                    assert(before[i].label@ != label);
                }
            }
        } else {
            assert(at_label(before, l, i));
            let k = choose|k: int| at_label(before, l, k);
            assert(at_label(before, l, k));
            assert(i == k) by {
                if i < k {
                    assert(before[i].label@ != before[k].label@);
                } else if k < i {
                    assert(before[k].label@ != before[i].label@);
                }
            }
        }
    }
    assert(gauge_map(after) =~= gauge_map(before).insert(label, value));
}

/// Everything that the control loop counts and measures.
#[derive(Debug, Clone)]
pub struct Metrics {
    /// Target node count.
    pub desired_nodes: u64,
    /// Node count by state.
    pub managed_nodes: GaugeFamily,
    /// Servers created.
    pub nodes_created_total: u64,
    /// Servers deleted.
    pub nodes_deleted_total: u64,
    /// Failed create calls.
    pub scale_up_errors_total: u64,
    /// Failed teardown operations.
    pub scale_down_errors_total: u64,
    /// Runners deregistered from Gitea.
    pub runners_deregistered_total: u64,
    /// Linux jobs waiting.
    pub linux_jobs_waiting: u64,
    /// Linux jobs running.
    pub linux_jobs_running: u64,
    /// Age by node, in seconds.
    pub node_age_seconds: GaugeFamily,
    /// Idle time by node, in seconds.
    pub node_idle_seconds: GaugeFamily,
    /// Seconds from server creation to runner registration, one entry for each node that came
    /// up and was not exported yet.
    pub provisioning_duration: Vec<i64>,
}

#[verifier::ext_equal]
pub struct MetricsView {
    pub desired_nodes: u64,
    pub managed_nodes: Map<Seq<char>, u64>,
    pub nodes_created_total: u64,
    pub nodes_deleted_total: u64,
    pub scale_up_errors_total: u64,
    pub scale_down_errors_total: u64,
    pub runners_deregistered_total: u64,
    pub linux_jobs_waiting: u64,
    pub linux_jobs_running: u64,
    pub node_age_seconds: Map<Seq<char>, u64>,
    pub node_idle_seconds: Map<Seq<char>, u64>,
    pub provisioning_duration: Seq<i64>,
}

impl View for Metrics {
    type V = MetricsView;

    open spec fn view(&self) -> MetricsView {
        MetricsView {
            desired_nodes: self.desired_nodes,
            managed_nodes: self.managed_nodes@,
            nodes_created_total: self.nodes_created_total,
            nodes_deleted_total: self.nodes_deleted_total,
            scale_up_errors_total: self.scale_up_errors_total,
            scale_down_errors_total: self.scale_down_errors_total,
            runners_deregistered_total: self.runners_deregistered_total,
            linux_jobs_waiting: self.linux_jobs_waiting,
            linux_jobs_running: self.linux_jobs_running,
            node_age_seconds: self.node_age_seconds@,
            node_idle_seconds: self.node_idle_seconds@,
            provisioning_duration: self.provisioning_duration@,
        }
    }
}

/// A counter after one more event; it starts over at zero once it is full.
pub open spec fn counted(n: u64) -> u64 {
    if n == u64::MAX {
        0
    } else {
        (n + 1) as u64
    }
}

impl MetricsView {
    pub open spec fn server_created(self) -> MetricsView {
        MetricsView { nodes_created_total: counted(self.nodes_created_total), ..self }
    }

    pub open spec fn server_deleted(self) -> MetricsView {
        MetricsView { nodes_deleted_total: counted(self.nodes_deleted_total), ..self }
    }

    pub open spec fn scale_up_failed(self) -> MetricsView {
        MetricsView { scale_up_errors_total: counted(self.scale_up_errors_total), ..self }
    }

    pub open spec fn scale_down_failed(self) -> MetricsView {
        MetricsView { scale_down_errors_total: counted(self.scale_down_errors_total), ..self }
    }

    pub open spec fn runner_deregistered(self) -> MetricsView {
        MetricsView { runners_deregistered_total: counted(self.runners_deregistered_total), ..self }
    }
}

/// The node count by state, after the six states were set.
pub open spec fn state_counts(
    before: Map<Seq<char>, u64>,
    provisioning: int,
    busy: int,
    idle: int,
    deregistering: int,
    draining: int,
    removing: int,
) -> Map<Seq<char>, u64> {
    before.insert("provisioning"@, provisioning as u64).insert("busy"@, busy as u64).insert(
        "idle"@,
        idle as u64,
    ).insert("deregistering"@, deregistering as u64).insert("draining"@, draining as u64).insert(
        "removing"@,
        removing as u64,
    )
}

fn count(n: u64) -> (r: u64)
    ensures
        r == counted(n),
{
    n.wrapping_add(1)
}

impl Metrics {
    pub open spec fn wf(self) -> bool {
        &&& self.managed_nodes.wf()
        &&& self.node_age_seconds.wf()
        &&& self.node_idle_seconds.wf()
    }

    /// Nothing counted yet, no labelled value set.
    pub fn new() -> (r: Metrics)
        ensures
            r.wf(),
            r@ == (MetricsView {
                desired_nodes: 0,
                managed_nodes: Map::empty(),
                nodes_created_total: 0,
                nodes_deleted_total: 0,
                scale_up_errors_total: 0,
                scale_down_errors_total: 0,
                runners_deregistered_total: 0,
                linux_jobs_waiting: 0,
                linux_jobs_running: 0,
                node_age_seconds: Map::empty(),
                node_idle_seconds: Map::empty(),
                provisioning_duration: Seq::empty(),
            }),
    {
        Metrics {
            desired_nodes: 0,
            managed_nodes: GaugeFamily::new(),
            nodes_created_total: 0,
            nodes_deleted_total: 0,
            scale_up_errors_total: 0,
            scale_down_errors_total: 0,
            runners_deregistered_total: 0,
            linux_jobs_waiting: 0,
            linux_jobs_running: 0,
            node_age_seconds: GaugeFamily::new(),
            node_idle_seconds: GaugeFamily::new(),
            provisioning_duration: Vec::new(),
        }
    }

    pub fn count_server_created(&mut self)
        requires
            old(self).wf(),
        ensures
            final(self).wf(),
            final(self)@ == old(self)@.server_created(),
    {
        self.nodes_created_total = count(self.nodes_created_total);
    }

    pub fn count_server_deleted(&mut self)
        requires
            old(self).wf(),
        ensures
            final(self).wf(),
            final(self)@ == old(self)@.server_deleted(),
    {
        self.nodes_deleted_total = count(self.nodes_deleted_total);
    }

    pub fn count_scale_up_error(&mut self)
        requires
            old(self).wf(),
        ensures
            final(self).wf(),
            final(self)@ == old(self)@.scale_up_failed(),
    {
        self.scale_up_errors_total = count(self.scale_up_errors_total);
    }

    pub fn count_scale_down_error(&mut self)
        requires
            old(self).wf(),
        ensures
            final(self).wf(),
            final(self)@ == old(self)@.scale_down_failed(),
    {
        self.scale_down_errors_total = count(self.scale_down_errors_total);
    }

    pub fn count_runner_deregistered(&mut self)
        requires
            old(self).wf(),
        ensures
            final(self).wf(),
            final(self)@ == old(self)@.runner_deregistered(),
    {
        self.runners_deregistered_total = count(self.runners_deregistered_total);
    }

    /// Set the node count of each of the six states.
    pub fn set_managed_node_counts(
        &mut self,
        provisioning: usize,
        busy: usize,
        idle: usize,
        deregistering: usize,
        draining: usize,
        removing: usize,
    )
        requires
            old(self).wf(),
        ensures
            final(self).wf(),
            final(self)@ == (MetricsView {
                managed_nodes: state_counts(
                    old(self)@.managed_nodes,
                    provisioning as int,
                    busy as int,
                    idle as int,
                    deregistering as int,
                    draining as int,
                    removing as int,
                ),
                ..old(self)@
            }),
    {
        self.managed_nodes.set("provisioning", provisioning as u64);
        self.managed_nodes.set("busy", busy as u64);
        self.managed_nodes.set("idle", idle as u64);
        self.managed_nodes.set("deregistering", deregistering as u64);
        self.managed_nodes.set("draining", draining as u64);
        self.managed_nodes.set("removing", removing as u64);
    }

    /// Hand out the provisioning times that were not exported yet, oldest first.
    pub fn take_provisioning_durations(&mut self) -> (r: Vec<i64>)
        requires
            old(self).wf(),
        ensures
            final(self).wf(),
            r@ == old(self)@.provisioning_duration,
            final(self)@ == (MetricsView { provisioning_duration: Seq::empty(), ..old(self)@ }),
    {
        let mut taken: Vec<i64> = Vec::new();
        taken.append(&mut self.provisioning_duration);
        assert(taken@ =~= old(self)@.provisioning_duration);
        taken
    }
}

/// The metrics that are exported.
#[derive(Debug, Clone, Copy, PartialEq, Eq, Structural)]
pub enum MetricId {
    DesiredNodes,
    ManagedNodes,
    NodesCreatedTotal,
    NodesDeletedTotal,
    ScaleUpErrorsTotal,
    ScaleDownErrorsTotal,
    RunnersDeregisteredTotal,
    HetznerApiDuration,
    GiteaApiDuration,
    K8sApiDuration,
    LoopDuration,
    LinuxJobsWaiting,
    LinuxJobsRunning,
    NodeAgeSeconds,
    NodeIdleSeconds,
    ProvisioningDuration,
}

impl MetricId {
    pub open spec fn name_text(self) -> Seq<char> {
        match self {
            MetricId::DesiredNodes => "autoscaler_desired_nodes"@,
            MetricId::ManagedNodes => "autoscaler_managed_nodes"@,
            MetricId::NodesCreatedTotal => "autoscaler_nodes_created_total"@,
            MetricId::NodesDeletedTotal => "autoscaler_nodes_deleted_total"@,
            MetricId::ScaleUpErrorsTotal => "autoscaler_scale_up_errors_total"@,
            MetricId::ScaleDownErrorsTotal => "autoscaler_scale_down_errors_total"@,
            MetricId::RunnersDeregisteredTotal => "autoscaler_runners_deregistered_total"@,
            MetricId::HetznerApiDuration => "autoscaler_hetzner_api_duration_seconds"@,
            MetricId::GiteaApiDuration => "autoscaler_gitea_api_duration_seconds"@,
            MetricId::K8sApiDuration => "autoscaler_k8s_api_duration_seconds"@,
            MetricId::LoopDuration => "autoscaler_loop_duration_seconds"@,
            MetricId::LinuxJobsWaiting => "autoscaler_linux_jobs_waiting"@,
            MetricId::LinuxJobsRunning => "autoscaler_linux_jobs_running"@,
            MetricId::NodeAgeSeconds => "autoscaler_node_age_seconds"@,
            MetricId::NodeIdleSeconds => "autoscaler_node_idle_seconds"@,
            MetricId::ProvisioningDuration => "autoscaler_provisioning_duration_seconds"@,
        }
    }

    pub open spec fn help_text(self) -> Seq<char> {
        match self {
            MetricId::DesiredNodes => "Target node count"@,
            MetricId::ManagedNodes => "Per-state node count"@,
            MetricId::NodesCreatedTotal => "Servers created"@,
            MetricId::NodesDeletedTotal => "Servers deleted"@,
            MetricId::ScaleUpErrorsTotal => "Failed create calls"@,
            MetricId::ScaleDownErrorsTotal => "Failed teardown operations"@,
            MetricId::RunnersDeregisteredTotal => "Runners deregistered from Gitea"@,
            MetricId::HetznerApiDuration => "Hetzner API latency"@,
            MetricId::GiteaApiDuration => "Gitea API latency"@,
            MetricId::K8sApiDuration => "Kubernetes API latency"@,
            MetricId::LoopDuration => "Control loop iteration time"@,
            MetricId::LinuxJobsWaiting => "Filtered linux jobs waiting"@,
            MetricId::LinuxJobsRunning => "Filtered linux jobs running"@,
            MetricId::NodeAgeSeconds => "Per-node age"@,
            MetricId::NodeIdleSeconds => "Per-node idle duration"@,
            MetricId::ProvisioningDuration => "Time from server creation to runner registration"@,
        }
    }

    /// The one label of the metric, if it has one.
    pub open spec fn label_text(self) -> Option<Seq<char>> {
        match self {
            MetricId::ManagedNodes => Some("state"@),
            MetricId::NodeAgeSeconds => Some("node"@),
            MetricId::NodeIdleSeconds => Some("node"@),
            _ => None,
        }
    }

    /// The name under which the metric is exported.
    pub fn name(self) -> (r: &'static str)
        ensures
            r@ == self.name_text(),
    {
        match self {
            MetricId::DesiredNodes => "autoscaler_desired_nodes",
            MetricId::ManagedNodes => "autoscaler_managed_nodes",
            MetricId::NodesCreatedTotal => "autoscaler_nodes_created_total",
            MetricId::NodesDeletedTotal => "autoscaler_nodes_deleted_total",
            MetricId::ScaleUpErrorsTotal => "autoscaler_scale_up_errors_total",
            MetricId::ScaleDownErrorsTotal => "autoscaler_scale_down_errors_total",
            MetricId::RunnersDeregisteredTotal => "autoscaler_runners_deregistered_total",
            MetricId::HetznerApiDuration => "autoscaler_hetzner_api_duration_seconds",
            MetricId::GiteaApiDuration => "autoscaler_gitea_api_duration_seconds",
            MetricId::K8sApiDuration => "autoscaler_k8s_api_duration_seconds",
            MetricId::LoopDuration => "autoscaler_loop_duration_seconds",
            MetricId::LinuxJobsWaiting => "autoscaler_linux_jobs_waiting",
            MetricId::LinuxJobsRunning => "autoscaler_linux_jobs_running",
            MetricId::NodeAgeSeconds => "autoscaler_node_age_seconds",
            MetricId::NodeIdleSeconds => "autoscaler_node_idle_seconds",
            MetricId::ProvisioningDuration => "autoscaler_provisioning_duration_seconds",
        }
    }

    /// What the metric is, in words.
    pub fn help(self) -> (r: &'static str)
        ensures
            r@ == self.help_text(),
    {
        match self {
            MetricId::DesiredNodes => "Target node count",
            MetricId::ManagedNodes => "Per-state node count",
            MetricId::NodesCreatedTotal => "Servers created",
            MetricId::NodesDeletedTotal => "Servers deleted",
            MetricId::ScaleUpErrorsTotal => "Failed create calls",
            MetricId::ScaleDownErrorsTotal => "Failed teardown operations",
            MetricId::RunnersDeregisteredTotal => "Runners deregistered from Gitea",
            MetricId::HetznerApiDuration => "Hetzner API latency",
            MetricId::GiteaApiDuration => "Gitea API latency",
            MetricId::K8sApiDuration => "Kubernetes API latency",
            MetricId::LoopDuration => "Control loop iteration time",
            MetricId::LinuxJobsWaiting => "Filtered linux jobs waiting",
            MetricId::LinuxJobsRunning => "Filtered linux jobs running",
            MetricId::NodeAgeSeconds => "Per-node age",
            MetricId::NodeIdleSeconds => "Per-node idle duration",
            MetricId::ProvisioningDuration => "Time from server creation to runner registration",
        }
    }

    /// The label of a metric that has a value for each of several things.
    pub fn label(self) -> (r: Option<&'static str>)
        ensures
            match r {
                Some(label) => self.label_text() == Some(label@),
                None => self.label_text() is None,
            },
    {
        match self {
            MetricId::ManagedNodes => Some("state"),
            MetricId::NodeAgeSeconds => Some("node"),
            MetricId::NodeIdleSeconds => Some("node"),
            _ => None,
        }
    }
}

/// The upper bounds, in seconds, of the buckets that provisioning times are sorted into.
pub fn provisioning_buckets() -> (r: Vec<u64>)
    ensures
        r@ == seq![30u64, 60, 90, 120, 180, 240, 300, 600],
        forall|i: int, j: int| 0 <= i < j < r@.len() ==> r@[i] < r@[j],
{
    let r: Vec<u64> = vec![30, 60, 90, 120, 180, 240, 300, 600];
    assert(r@ =~= seq![30u64, 60, 90, 120, 180, 240, 300, 600]);
    r
}

/// The address to which the metrics are pushed.
pub fn push_url(pushgateway_url: &str) -> (r: String)
    ensures
        r@ == pushgateway_url@ + "/metrics/job/gitea-ci-autoscaler"@,
{
    let mut r = pushgateway_url.to_owned();
    r.append("/metrics/job/gitea-ci-autoscaler");
    r
}

/// A character that a metric's name may hold.
pub open spec fn is_name_char(c: char) -> bool {
    'a' <= c <= 'z' || '0' <= c <= '9' || c == '_'
}

/// Every metric can be registered: its name starts with a letter and holds nothing but letters,
/// digits and underscores, and no other metric has the same name.
pub proof fn metric_names_are_valid_and_distinct(a: MetricId, b: MetricId)
    ensures
        a.name_text().len() > 0,
        'a' <= a.name_text()[0] <= 'z',
        forall|i: int| 0 <= i < a.name_text().len() ==> is_name_char(#[trigger] a.name_text()[i]),
        a.name_text() == b.name_text() ==> a == b,
{
    reveal_strlit("autoscaler_desired_nodes");
    reveal_strlit("autoscaler_managed_nodes");
    reveal_strlit("autoscaler_nodes_created_total");
    reveal_strlit("autoscaler_nodes_deleted_total");
    reveal_strlit("autoscaler_scale_up_errors_total");
    reveal_strlit("autoscaler_scale_down_errors_total");
    reveal_strlit("autoscaler_runners_deregistered_total");
    reveal_strlit("autoscaler_hetzner_api_duration_seconds");
    reveal_strlit("autoscaler_gitea_api_duration_seconds");
    reveal_strlit("autoscaler_k8s_api_duration_seconds");
    reveal_strlit("autoscaler_loop_duration_seconds");
    reveal_strlit("autoscaler_linux_jobs_waiting");
    reveal_strlit("autoscaler_linux_jobs_running");
    reveal_strlit("autoscaler_node_age_seconds");
    reveal_strlit("autoscaler_node_idle_seconds");
    reveal_strlit("autoscaler_provisioning_duration_seconds");
    let (n, m) = (a.name_text(), b.name_text());
    assert(n.len() == m.len() && n[11] == m[11] && n[17] == m[17] && n[22] == m[22] ==> a == b);
}

/// The name of a metric is made of the program, the thing that is measured and its unit: counters
/// end in `_total`, durations in `_seconds`, and plain numbers in nothing. Metrics with a value for
/// each of several things name these by one label.
pub proof fn names_tell_what_is_measured(id: MetricId)
    ensures
        ({
            let name = id.name_text();
            match id {
                MetricId::DesiredNodes => name == "autoscaler_"@ + "desired_nodes"@,
                MetricId::ManagedNodes => name == "autoscaler_"@ + "managed_nodes"@,
                MetricId::NodesCreatedTotal => name == "autoscaler_"@
                    + "nodes_created"@ + "_total"@,
                MetricId::NodesDeletedTotal => name == "autoscaler_"@
                    + "nodes_deleted"@ + "_total"@,
                MetricId::ScaleUpErrorsTotal => name == "autoscaler_"@
                    + "scale_up_errors"@ + "_total"@,
                MetricId::ScaleDownErrorsTotal => name == "autoscaler_"@
                    + "scale_down_errors"@ + "_total"@,
                MetricId::RunnersDeregisteredTotal => name == "autoscaler_"@
                    + "runners_deregistered"@ + "_total"@,
                MetricId::HetznerApiDuration => name == "autoscaler_"@
                    + "hetzner_api_duration"@ + "_seconds"@,
                MetricId::GiteaApiDuration => name == "autoscaler_"@
                    + "gitea_api_duration"@ + "_seconds"@,
                MetricId::K8sApiDuration => name == "autoscaler_"@
                    + "k8s_api_duration"@ + "_seconds"@,
                MetricId::LoopDuration => name == "autoscaler_"@ + "loop_duration"@ + "_seconds"@,
                MetricId::LinuxJobsWaiting => name == "autoscaler_"@ + "linux_jobs_waiting"@,
                MetricId::LinuxJobsRunning => name == "autoscaler_"@ + "linux_jobs_running"@,
                MetricId::NodeAgeSeconds => name == "autoscaler_"@ + "node_age"@ + "_seconds"@,
                MetricId::NodeIdleSeconds => name == "autoscaler_"@ + "node_idle"@ + "_seconds"@,
                MetricId::ProvisioningDuration => name == "autoscaler_"@
                    + "provisioning_duration"@ + "_seconds"@,
            }
        }),
        id.label_text() == Some("node"@) <==> id == MetricId::NodeAgeSeconds || id
            == MetricId::NodeIdleSeconds,
        id.label_text() == Some("state"@) <==> id == MetricId::ManagedNodes,
        id.label_text() is None || id.label_text() == Some("node"@) || id.label_text() == Some(
            "state"@,
        ),
{
    reveal_strlit("autoscaler_");
    reveal_strlit("_total");
    reveal_strlit("_seconds");
    reveal_strlit("node");
    reveal_strlit("state");
    assert("node"@.len() == 4 && "state"@.len() == 5);
    match id {
        MetricId::DesiredNodes => {
            reveal_strlit("autoscaler_desired_nodes");
            reveal_strlit("desired_nodes");
            assert("autoscaler_desired_nodes"@ =~= "autoscaler_"@ + "desired_nodes"@);
        },
        MetricId::ManagedNodes => {
            reveal_strlit("autoscaler_managed_nodes");
            reveal_strlit("managed_nodes");
            assert("autoscaler_managed_nodes"@ =~= "autoscaler_"@ + "managed_nodes"@);
        },
        MetricId::NodesCreatedTotal => {
            reveal_strlit("autoscaler_nodes_created_total");
            reveal_strlit("nodes_created");
            assert("autoscaler_nodes_created_total"@
                =~= "autoscaler_"@ + "nodes_created"@ + "_total"@);
        },
        MetricId::NodesDeletedTotal => {
            reveal_strlit("autoscaler_nodes_deleted_total");
            reveal_strlit("nodes_deleted");
            assert("autoscaler_nodes_deleted_total"@
                =~= "autoscaler_"@ + "nodes_deleted"@ + "_total"@);
        },
        MetricId::ScaleUpErrorsTotal => {
            reveal_strlit("autoscaler_scale_up_errors_total");
            reveal_strlit("scale_up_errors");
            assert("autoscaler_scale_up_errors_total"@
                =~= "autoscaler_"@ + "scale_up_errors"@ + "_total"@);
        },
        MetricId::ScaleDownErrorsTotal => {
            reveal_strlit("autoscaler_scale_down_errors_total");
            reveal_strlit("scale_down_errors");
            assert("autoscaler_scale_down_errors_total"@
                =~= "autoscaler_"@ + "scale_down_errors"@ + "_total"@);
        },
        MetricId::RunnersDeregisteredTotal => {
            reveal_strlit("autoscaler_runners_deregistered_total");
            reveal_strlit("runners_deregistered");
            assert("autoscaler_runners_deregistered_total"@
                =~= "autoscaler_"@ + "runners_deregistered"@ + "_total"@);
        },
        MetricId::HetznerApiDuration => {
            reveal_strlit("autoscaler_hetzner_api_duration_seconds");
            reveal_strlit("hetzner_api_duration");
            assert("autoscaler_hetzner_api_duration_seconds"@
                =~= "autoscaler_"@ + "hetzner_api_duration"@ + "_seconds"@);
        },
        MetricId::GiteaApiDuration => {
            reveal_strlit("autoscaler_gitea_api_duration_seconds");
            reveal_strlit("gitea_api_duration");
            assert("autoscaler_gitea_api_duration_seconds"@
                =~= "autoscaler_"@ + "gitea_api_duration"@ + "_seconds"@);
        },
        MetricId::K8sApiDuration => {
            reveal_strlit("autoscaler_k8s_api_duration_seconds");
            reveal_strlit("k8s_api_duration");
            assert("autoscaler_k8s_api_duration_seconds"@
                =~= "autoscaler_"@ + "k8s_api_duration"@ + "_seconds"@);
        },
        MetricId::LoopDuration => {
            reveal_strlit("autoscaler_loop_duration_seconds");
            reveal_strlit("loop_duration");
            assert("autoscaler_loop_duration_seconds"@
                =~= "autoscaler_"@ + "loop_duration"@ + "_seconds"@);
        },
        MetricId::LinuxJobsWaiting => {
            reveal_strlit("autoscaler_linux_jobs_waiting");
            reveal_strlit("linux_jobs_waiting");
            assert("autoscaler_linux_jobs_waiting"@ =~= "autoscaler_"@ + "linux_jobs_waiting"@);
        },
        MetricId::LinuxJobsRunning => {
            reveal_strlit("autoscaler_linux_jobs_running");
            reveal_strlit("linux_jobs_running");
            assert("autoscaler_linux_jobs_running"@ =~= "autoscaler_"@ + "linux_jobs_running"@);
        },
        MetricId::NodeAgeSeconds => {
            reveal_strlit("autoscaler_node_age_seconds");
            reveal_strlit("node_age");
            assert("autoscaler_node_age_seconds"@ =~= "autoscaler_"@ + "node_age"@ + "_seconds"@);
        },
        MetricId::NodeIdleSeconds => {
            reveal_strlit("autoscaler_node_idle_seconds");
            reveal_strlit("node_idle");
            assert("autoscaler_node_idle_seconds"@ =~= "autoscaler_"@ + "node_idle"@ + "_seconds"@);
        },
        MetricId::ProvisioningDuration => {
            reveal_strlit("autoscaler_provisioning_duration_seconds");
            reveal_strlit("provisioning_duration");
            assert("autoscaler_provisioning_duration_seconds"@
                =~= "autoscaler_"@ + "provisioning_duration"@ + "_seconds"@);
        },
    }
}

} // verus!
