use gitea_ci_autoscaler::cloud_init::{render, render_with_args, DEFAULT_AGENT_ARGS};

#[test]
fn cloud_init_render() {
    let result = render("10.0.0.1", "my-token", "v1.32.11+k3s1");

    assert!(result.starts_with("#cloud-config"));
    assert!(result.contains("K3S_URL=https://10.0.0.1:6443"));
    assert!(result.contains("K3S_TOKEN=my-token"));
    assert!(result.contains("INSTALL_K3S_VERSION=v1.32.11+k3s1"));
    assert!(result.contains("--node-label=managed-by=gitea-ci-autoscaler"));
    assert!(result.contains("--node-label=node-role=ci-runner"));
}

#[test]
fn the_whole_document() {
    assert_eq!(
        render("10.0.0.1", "my-token", "v1.32.11+k3s1"),
        "#cloud-config\nruncmd:\n  - curl -sfL https://get.k3s.io | \
         K3S_URL=https://10.0.0.1:6443 K3S_TOKEN=my-token \
         INSTALL_K3S_VERSION=v1.32.11+k3s1 sh -s - agent \
         --node-label=managed-by=gitea-ci-autoscaler --node-label=node-role=ci-runner"
    );
}

#[test]
fn agent_arguments_end_the_document() {
    let args = "--node-taint=ci=true:NoSchedule";
    let result = render_with_args("10.0.0.1", "my-token", "v1.32.11+k3s1", args);

    assert!(result.ends_with(" agent --node-taint=ci=true:NoSchedule"));
    assert!(!result.contains("--node-label"));
    assert_eq!(
        render_with_args("10.0.0.1", "my-token", "v1.32.11+k3s1", DEFAULT_AGENT_ARGS),
        render("10.0.0.1", "my-token", "v1.32.11+k3s1")
    );
}
