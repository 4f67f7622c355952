use gitea_ci_autoscaler::cloud_init::DEFAULT_AGENT_ARGS;
use gitea_ci_autoscaler::k8s::{
    evictions, master_ip, pods_on_node_selector, ControlPlaneError, K8sNode, K8sPod, NodeAddress,
    PodToDrain, NODE_SELECTOR,
};

fn address(kind: &str, address: &str) -> NodeAddress {
    NodeAddress {
        kind: kind.into(),
        address: address.into(),
    }
}

#[test]
fn nodes_are_unnamed_and_schedulable_by_default() {
    let node = K8sNode::from_api(None, None);
    assert_eq!(node.name, "");
    assert!(!node.unschedulable);
    let node = K8sNode::from_api(Some("ci-runner-1".into()), Some(true));
    assert_eq!(node.name, "ci-runner-1");
    assert!(node.unschedulable);
    assert!(!K8sNode::from_api(None, Some(false)).unschedulable);
}

#[test]
fn pods_are_unnamed_and_unscheduled_by_default() {
    let pod = K8sPod::from_api(None, None, None);
    assert_eq!(pod.name, "");
    assert_eq!(pod.namespace, "");
    assert_eq!(pod.node_name, None);
    let pod = K8sPod::from_api(Some("p".into()), Some("ns".into()), Some("n".into()));
    assert_eq!(pod.name, "p");
    assert_eq!(pod.namespace, "ns");
    assert_eq!(pod.node_name, Some("n".to_string()));
}

#[test]
fn mirror_pods_and_daemon_sets_are_not_evicted() {
    let pod = |name: &str, annotation: &str, owner: &str| PodToDrain {
        name: Some(name.into()),
        namespace: Some("gitea-runners".into()),
        annotations: vec!["other".into(), annotation.into()],
        owner_kinds: vec!["Node".into(), owner.into()],
    };
    let pods = vec![
        pod("a", "plain", "ReplicaSet"),
        pod("b", "kubernetes.io/config.mirror", "ReplicaSet"),
        pod("c", "plain", "DaemonSet"),
        PodToDrain {
            name: None,
            namespace: None,
            annotations: vec![],
            owner_kinds: vec![],
        },
    ];
    let targets: Vec<(String, String)> = evictions(&pods)
        .into_iter()
        .map(|e| (e.namespace, e.pod_name))
        .collect();
    assert_eq!(
        targets,
        vec![
            ("gitea-runners".to_string(), "a".to_string()),
            ("default".to_string(), "".to_string()),
        ]
    );
}

#[test]
fn pods_are_selected_by_their_node() {
    assert_eq!(
        pods_on_node_selector("ci-runner-1"),
        "spec.nodeName=ci-runner-1"
    );
}

#[test]
fn the_control_plane_is_reached_at_its_internal_address() {
    let nodes = vec![
        Some(vec![
            address("Hostname", "master"),
            address("InternalIP", "10.0.0.1"),
            address("InternalIP", "10.0.0.2"),
        ]),
        Some(vec![address("InternalIP", "10.0.0.3")]),
    ];
    assert_eq!(master_ip(&nodes), Ok("10.0.0.1".to_string()));
}

#[test]
fn what_can_be_missing_in_the_control_plane() {
    assert_eq!(master_ip(&[]), Err(ControlPlaneError::NoNode));
    assert_eq!(
        master_ip(&[None, Some(vec![address("InternalIP", "10.0.0.3")])]),
        Err(ControlPlaneError::NoAddresses)
    );
    assert_eq!(
        master_ip(&[Some(vec![address("ExternalIP", "1.2.3.4")])]),
        Err(ControlPlaneError::NoInternalIp)
    );
    assert_eq!(
        ControlPlaneError::NoNode.to_string(),
        "no control-plane node found"
    );
    assert_eq!(
        ControlPlaneError::NoAddresses.to_string(),
        "control-plane node has no addresses"
    );
    assert_eq!(
        ControlPlaneError::NoInternalIp.to_string(),
        "control-plane node has no InternalIP"
    );
}

#[test]
fn nodes_that_join_with_the_default_labels_are_selected() {
    assert!(DEFAULT_AGENT_ARGS.contains(&format!("--node-label={NODE_SELECTOR}")));
}
