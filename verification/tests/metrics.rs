use gitea_ci_autoscaler::metrics::{
    provisioning_buckets, push_url, GaugeFamily, MetricId, Metrics,
};

const ALL: [MetricId; 16] = [
    MetricId::DesiredNodes,
    MetricId::ManagedNodes,
    MetricId::NodesCreatedTotal,
    MetricId::NodesDeletedTotal,
    MetricId::ScaleUpErrorsTotal,
    MetricId::ScaleDownErrorsTotal,
    MetricId::RunnersDeregisteredTotal,
    MetricId::HetznerApiDuration,
    MetricId::GiteaApiDuration,
    MetricId::K8sApiDuration,
    MetricId::LoopDuration,
    MetricId::LinuxJobsWaiting,
    MetricId::LinuxJobsRunning,
    MetricId::NodeAgeSeconds,
    MetricId::NodeIdleSeconds,
    MetricId::ProvisioningDuration,
];

#[test]
fn every_metric_can_be_registered() {
    let registry = prometheus::Registry::new();
    for id in ALL {
        let labels: Vec<&str> = id.label().into_iter().collect();
        let opts = prometheus::Opts::new(id.name(), id.help());
        let gauge = prometheus::GaugeVec::new(opts, &labels).unwrap();
        registry.register(Box::new(gauge)).unwrap();
    }
}

#[test]
fn names_and_labels() {
    assert_eq!(
        MetricId::ProvisioningDuration.name(),
        "autoscaler_provisioning_duration_seconds"
    );
    assert_eq!(MetricId::K8sApiDuration.help(), "Kubernetes API latency");
    assert_eq!(MetricId::ManagedNodes.label(), Some("state"));
    assert_eq!(MetricId::NodeAgeSeconds.label(), Some("node"));
    assert_eq!(MetricId::DesiredNodes.label(), None);
    assert_eq!(
        provisioning_buckets(),
        vec![30, 60, 90, 120, 180, 240, 300, 600]
    );
    assert_eq!(
        push_url("http://localhost:9091"),
        "http://localhost:9091/metrics/job/gitea-ci-autoscaler"
    );
}

#[test]
fn gauges_hold_the_last_value_of_each_label() {
    let mut gauges = GaugeFamily::new();
    gauges.set("a", 1);
    gauges.set("b", 2);
    gauges.set("a", 3);
    assert_eq!(gauges.get("a"), Some(3));
    assert_eq!(gauges.get("b"), Some(2));
    assert_eq!(gauges.get("c"), None);
    assert_eq!(gauges.values().len(), 2);
    gauges.reset();
    assert_eq!(gauges.get("a"), None);
    assert!(gauges.values().is_empty());
}

#[test]
fn node_counts_by_state() {
    let mut metrics = Metrics::new();
    metrics.set_managed_node_counts(1, 2, 3, 4, 5, 6);
    let counts: Vec<Option<u64>> = [
        "provisioning",
        "busy",
        "idle",
        "deregistering",
        "draining",
        "removing",
    ]
    .iter()
    .map(|state| metrics.managed_nodes.get(state))
    .collect();
    assert_eq!(
        counts,
        vec![Some(1), Some(2), Some(3), Some(4), Some(5), Some(6)]
    );
}

#[test]
fn counters_count() {
    let mut metrics = Metrics::new();
    metrics.count_server_created();
    metrics.count_server_created();
    metrics.count_server_deleted();
    metrics.count_scale_up_error();
    metrics.count_scale_down_error();
    metrics.count_runner_deregistered();
    assert_eq!(metrics.nodes_created_total, 2);
    assert_eq!(metrics.nodes_deleted_total, 1);
    assert_eq!(metrics.scale_up_errors_total, 1);
    assert_eq!(metrics.scale_down_errors_total, 1);
    assert_eq!(metrics.runners_deregistered_total, 1);
}
