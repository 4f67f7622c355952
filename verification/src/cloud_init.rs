//! The cloud-init document by which a new server joins the cluster.

use vstd::prelude::*;

verus! {

/// The arguments of the agent where none are configured: the labels by which nodes are found.
pub const DEFAULT_AGENT_ARGS: &'static str =
    "--node-label=managed-by=gitea-ci-autoscaler --node-label=node-role=ci-runner";

/// The document, with the agent's arguments at the end of its one command.
pub open spec fn cloud_config(
    master_ip: Seq<char>,
    join_token: Seq<char>,
    k3s_version: Seq<char>,
    agent_args: Seq<char>,
) -> Seq<char> {
    "#cloud-config"@ + "\nruncmd:\n  - curl -sfL https://get.k3s.io | "@ + "K3S_URL=https://"@
        + master_ip + ":6443"@ + " "@ + "K3S_TOKEN="@ + join_token + " "@ + "INSTALL_K3S_VERSION="@
        + k3s_version + " sh -s - agent "@ + agent_args
}

/// True if `part` occurs in `whole`.
pub open spec fn occurs_in(part: Seq<char>, whole: Seq<char>) -> bool {
    exists|before: Seq<char>, after: Seq<char>| #[trigger] (before + part + after) == whole
}

/// The document for a node that carries the default labels.
pub fn render(master_ip: &str, join_token: &str, k3s_version: &str) -> (r: String)
    ensures
        r@ == cloud_config(master_ip@, join_token@, k3s_version@, DEFAULT_AGENT_ARGS@),
{
    render_with_args(master_ip, join_token, k3s_version, DEFAULT_AGENT_ARGS)
}

/// The document for a node whose agent gets the given arguments.
pub fn render_with_args(
    master_ip: &str,
    join_token: &str,
    k3s_version: &str,
    agent_args: &str,
) -> (r: String)
    ensures
        r@ == cloud_config(master_ip@, join_token@, k3s_version@, agent_args@),
{
    let mut r = "#cloud-config".to_owned();
    r.append("\nruncmd:\n  - curl -sfL https://get.k3s.io | ");
    r.append("K3S_URL=https://");
    r.append(master_ip);
    r.append(":6443");
    r.append(" ");
    r.append("K3S_TOKEN=");
    r.append(join_token);
    r.append(" ");
    r.append("INSTALL_K3S_VERSION=");
    r.append(k3s_version);
    r.append(" sh -s - agent ");
    r.append(agent_args);
    r
}

/// The document starts with the marker of a cloud-config document, hands the installer the
/// address of the control plane, the join token and the version, and ends in the agent's
/// arguments.
pub proof fn cloud_config_carries_its_parts(
    master_ip: Seq<char>,
    join_token: Seq<char>,
    k3s_version: Seq<char>,
    agent_args: Seq<char>,
)
    ensures
        "#cloud-config"@.is_prefix_of(
            cloud_config(master_ip, join_token, k3s_version, agent_args),
        ),
        occurs_in(
            "K3S_URL=https://"@ + master_ip + ":6443"@,
            cloud_config(master_ip, join_token, k3s_version, agent_args),
        ),
        occurs_in(
            "K3S_TOKEN="@ + join_token,
            cloud_config(master_ip, join_token, k3s_version, agent_args),
        ),
        occurs_in(
            "INSTALL_K3S_VERSION="@ + k3s_version,
            cloud_config(master_ip, join_token, k3s_version, agent_args),
        ),
        agent_args.is_suffix_of(cloud_config(master_ip, join_token, k3s_version, agent_args)),
{
    let whole = cloud_config(master_ip, join_token, k3s_version, agent_args);
    let p0 = "#cloud-config"@ + "\nruncmd:\n  - curl -sfL https://get.k3s.io | "@;
    let url = "K3S_URL=https://"@ + master_ip + ":6443"@;
    let token = "K3S_TOKEN="@ + join_token;
    let version = "INSTALL_K3S_VERSION="@ + k3s_version;
    let tail = " sh -s - agent "@ + agent_args;
    assert(whole =~= p0 + url + (" "@ + token + " "@ + version + tail));
    assert(whole =~= (p0 + url + " "@) + token + (" "@ + version + tail));
    assert(whole =~= (p0 + url + " "@ + token + " "@) + version + tail);
    assert(whole.take("#cloud-config"@.len() as int) =~= "#cloud-config"@);
    assert(whole.skip(whole.len() - agent_args.len()) =~= agent_args);
}

} // verus!
