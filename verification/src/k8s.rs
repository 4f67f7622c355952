//! What the autoscaler knows of Kubernetes: nodes and pods, and how to ask for them.

use vstd::prelude::*;

use crate::cloud_init::{occurs_in, DEFAULT_AGENT_ARGS};
use crate::hetzner::{selector, MANAGED_BY_LABEL, MANAGED_BY_VALUE};
use crate::seqs::{
    find_first, lemma_filter_map_take, lemma_find_first_at, lemma_find_first_none, lemma_views_push,
    views,
};
use crate::text::{contains_text, same_text};

verus! {

/// The selector of the nodes that joined from the autoscaler's servers.
pub const NODE_SELECTOR: &'static str = "managed-by=gitea-ci-autoscaler";

/// The selector of the pods that runners run in.
pub const RUNNER_POD_SELECTOR: &'static str = "app=gitea-actions-runner";

/// The selector of the nodes of the control plane.
pub const CONTROL_PLANE_SELECTOR: &'static str = "node-role.kubernetes.io/control-plane";

/// A node of the cluster.
#[derive(Debug, Clone)]
pub struct K8sNode {
    pub name: String,
    pub unschedulable: bool,
}

/// A pod, and the node that it was scheduled onto.
#[derive(Debug, Clone)]
pub struct K8sPod {
    pub name: String,
    pub namespace: String,
    pub node_name: Option<String>,
}

pub struct K8sNodeView {
    pub name: Seq<char>,
    pub unschedulable: bool,
}

pub struct K8sPodView {
    pub name: Seq<char>,
    pub namespace: Seq<char>,
    pub node_name: Option<Seq<char>>,
}

impl View for K8sNode {
    type V = K8sNodeView;

    open spec fn view(&self) -> K8sNodeView {
        K8sNodeView { name: self.name@, unschedulable: self.unschedulable }
    }
}

impl View for K8sPod {
    type V = K8sPodView;

    open spec fn view(&self) -> K8sPodView {
        K8sPodView {
            name: self.name@,
            namespace: self.namespace@,
            node_name: self.node_name.deep_view(),
        }
    }
}

/// The text, or the default where there is none.
pub open spec fn text_or(text: Option<String>, default: Seq<char>) -> Seq<char> {
    match text {
        Some(text) => text@,
        None => default,
    }
}

fn or_default(text: Option<String>) -> (r: String)
    ensures
        r@ == text_or(text, Seq::empty()),
{
    match text {
        Some(text) => text,
        None => {
            let r = String::new();
            assert(r@ =~= Seq::<char>::empty());
            r
        },
    }
}

impl K8sNode {
    /// The node that the API reports: unnamed and schedulable where it does not say.
    pub fn from_api(name: Option<String>, unschedulable: Option<bool>) -> (r: K8sNode)
        ensures
            r.name@ == text_or(name, Seq::empty()),
            r.unschedulable == (unschedulable == Some(true)),
    {
        K8sNode {
            name: or_default(name),
            unschedulable: match unschedulable {
                Some(b) => b,
                None => false,
            },
        }
    }
}

impl K8sPod {
    /// The pod that the API reports: unnamed where it does not say.
    pub fn from_api(
        name: Option<String>,
        namespace: Option<String>,
        node_name: Option<String>,
    ) -> (r: K8sPod)
        ensures
            r.name@ == text_or(name, Seq::empty()),
            r.namespace@ == text_or(namespace, Seq::empty()),
            r.node_name == node_name,
    {
        K8sPod { name: or_default(name), namespace: or_default(namespace), node_name }
    }
}

/// A pod on a node that is drained: its name, and what tells whether it can be evicted.
#[derive(Debug, Clone)]
pub struct PodToDrain {
    pub name: Option<String>,
    pub namespace: Option<String>,
    /// The names of its annotations.
    pub annotations: Vec<String>,
    /// The kinds of the objects that own it.
    pub owner_kinds: Vec<String>,
}

/// A pod to evict.
#[derive(Debug, Clone)]
pub struct Eviction {
    pub namespace: String,
    pub pod_name: String,
}

pub struct PodToDrainView {
    pub name: Option<String>,
    pub namespace: Option<String>,
    pub annotations: Seq<Seq<char>>,
    pub owner_kinds: Seq<Seq<char>>,
}

pub struct EvictionView {
    pub namespace: Seq<char>,
    pub pod_name: Seq<char>,
}

impl View for PodToDrain {
    type V = PodToDrainView;

    open spec fn view(&self) -> PodToDrainView {
        PodToDrainView {
            name: self.name,
            namespace: self.namespace,
            annotations: views(self.annotations@),
            owner_kinds: views(self.owner_kinds@),
        }
    }
}

impl View for Eviction {
    type V = EvictionView;

    open spec fn view(&self) -> EvictionView {
        EvictionView { namespace: self.namespace@, pod_name: self.pod_name@ }
    }
}

/// The eviction of a pod. Mirror pods belong to the kubelet and pods of a `DaemonSet` would come
/// back, so both stay.
pub open spec fn eviction_of() -> spec_fn(PodToDrainView) -> Option<EvictionView> {
    |pod: PodToDrainView|
        if pod.annotations.contains("kubernetes.io/config.mirror"@) || pod.owner_kinds.contains(
            "DaemonSet"@,
        ) {
            None
        } else {
            Some(
                EvictionView {
                    namespace: text_or(pod.namespace, "default"@),
                    pod_name: text_or(pod.name, Seq::empty()),
                },
            )
        }
}

fn clone_or(text: &Option<String>, default: &str) -> (r: String)
    ensures
        r@ == text_or(*text, default@),
{
    match text {
        Some(text) => text.clone(),
        None => default.to_owned(),
    }
}

/// The evictions that empty a node, in the order of its pods.
pub fn evictions(pods: &[PodToDrain]) -> (r: Vec<Eviction>)
    ensures
        views(r@) == views(pods@).filter_map(eviction_of()),
{
    let ghost all = views(pods@);
    let mut r: Vec<Eviction> = Vec::new();
    let mut i: usize = 0;
    assert(views(r@) =~= all.take(0).filter_map(eviction_of()));
    proof {
        reveal_strlit("");
        assert(""@ =~= Seq::<char>::empty());
    }
    while i < pods.len()
        invariant
            0 <= i <= pods@.len(),
            all == views(pods@),
            ""@ == Seq::<char>::empty(),
            views(r@) == all.take(i as int).filter_map(eviction_of()),
        decreases pods@.len() - i,
    {
        let pod = &pods[i];
        assert(all[i as int] == pod@);
        proof {
            lemma_filter_map_take(all, eviction_of(), i as int);
        }
        if !contains_text(pod.annotations.as_slice(), "kubernetes.io/config.mirror")
            && !contains_text(pod.owner_kinds.as_slice(), "DaemonSet") {
            let eviction = Eviction {
                namespace: clone_or(&pod.namespace, "default"),
                pod_name: clone_or(&pod.name, ""),
            };
            proof {
                lemma_views_push(r@, eviction);
            }
            r.push(eviction);
        }
        i = i + 1;
    }
    assert(all.take(i as int) =~= all);
    r
}

/// The field selector of the pods on a node.
pub fn pods_on_node_selector(node_name: &str) -> (r: String)
    ensures
        r@ == "spec.nodeName="@ + node_name@,
{
    let mut r = "spec.nodeName=".to_owned();
    r.append(node_name);
    r
}

/// An address of a node, and what kind of address it is.
#[derive(Debug, Clone)]
pub struct NodeAddress {
    pub kind: String,
    pub address: String,
}

pub struct NodeAddressView {
    pub kind: Seq<char>,
    pub address: Seq<char>,
}

impl View for NodeAddress {
    type V = NodeAddressView;

    open spec fn view(&self) -> NodeAddressView {
        NodeAddressView { kind: self.kind@, address: self.address@ }
    }
}

/// What can be missing in what the cluster reports of its control plane.
#[derive(Debug, Clone, Copy, PartialEq, Eq, Structural)]
pub enum ControlPlaneError {
    NoNode,
    NoAddresses,
    NoInternalIp,
}

impl ControlPlaneError {
    pub open spec fn text(self) -> Seq<char> {
        match self {
            ControlPlaneError::NoNode => "no control-plane node found"@,
            ControlPlaneError::NoAddresses => "control-plane node has no addresses"@,
            ControlPlaneError::NoInternalIp => "control-plane node has no InternalIP"@,
        }
    }

    /// The error in words.
    pub fn to_string(&self) -> (r: String)
        ensures
            r@ == self.text(),
    {
        match self {
            ControlPlaneError::NoNode => "no control-plane node found".to_owned(),
            ControlPlaneError::NoAddresses => "control-plane node has no addresses".to_owned(),
            ControlPlaneError::NoInternalIp => "control-plane node has no InternalIP".to_owned(),
        }
    }
}

pub open spec fn is_internal_ip() -> spec_fn(NodeAddressView) -> bool {
    |a: NodeAddressView| a.kind == "InternalIP"@
}

/// The first internal address of the first node of the control plane; a node is given by its
/// addresses, if it has any to report.
pub open spec fn control_plane_ip(nodes: Seq<Option<Vec<NodeAddress>>>) -> Result<
    Seq<char>,
    ControlPlaneError,
> {
    if nodes.len() == 0 {
        Err(ControlPlaneError::NoNode)
    } else {
        match nodes[0] {
            None => Err(ControlPlaneError::NoAddresses),
            Some(addresses) => match find_first(views(addresses@), is_internal_ip()) {
                Some(a) => Ok(a.address),
                None => Err(ControlPlaneError::NoInternalIp),
            },
        }
    }
}

/// The address at which new servers reach the control plane.
pub fn master_ip(nodes: &[Option<Vec<NodeAddress>>]) -> (r: Result<String, ControlPlaneError>)
    ensures
        match r {
            Ok(ip) => control_plane_ip(nodes@) == Ok::<_, ControlPlaneError>(ip@),
            Err(e) => control_plane_ip(nodes@) == Err::<Seq<char>, _>(e),
        },
{
    if nodes.len() == 0 {
        return Err(ControlPlaneError::NoNode);
    }
    match &nodes[0] {
        None => Err(ControlPlaneError::NoAddresses),
        Some(addresses) => internal_ip(addresses),
    }
}

fn internal_ip(addresses: &Vec<NodeAddress>) -> (r: Result<String, ControlPlaneError>)
    ensures
        match r {
            Ok(ip) => find_first(views(addresses@), is_internal_ip()) matches Some(a) && a.address
                == ip@,
            Err(e) => find_first(views(addresses@), is_internal_ip()) is None && e
                == ControlPlaneError::NoInternalIp,
        },
{
    let ghost all = views(addresses@);
    let mut i: usize = 0;
    while i < addresses.len()
        invariant
            0 <= i <= addresses@.len(),
            all == views(addresses@),
            forall|j: int| 0 <= j < i ==> !is_internal_ip()(#[trigger] all[j]),
        decreases addresses@.len() - i,
    {
        assert(all[i as int] == addresses@[i as int]@);
        if same_text(addresses[i].kind.as_str(), "InternalIP") {
            proof {
                lemma_find_first_at(all, is_internal_ip(), i as int);
            }
            return Ok(addresses[i].address.clone());
        }
        i = i + 1;
    }
    proof {
        lemma_find_first_none(all, is_internal_ip());
    }
    Err(ControlPlaneError::NoInternalIp)
}

/// A node that joins with the default arguments carries the label that nodes are selected by,
/// which is the label that servers are selected by.
pub proof fn default_labels_are_selected()
    ensures
        NODE_SELECTOR@ == selector(MANAGED_BY_LABEL@, MANAGED_BY_VALUE@),
        occurs_in("--node-label="@ + NODE_SELECTOR@, DEFAULT_AGENT_ARGS@),
        occurs_in("--node-label=node-role=ci-runner"@, DEFAULT_AGENT_ARGS@),
{
    reveal_strlit("managed-by=gitea-ci-autoscaler");
    reveal_strlit("managed-by");
    reveal_strlit("=");
    reveal_strlit("gitea-ci-autoscaler");
    assert(NODE_SELECTOR@ =~= selector(MANAGED_BY_LABEL@, MANAGED_BY_VALUE@));
    reveal_strlit("--node-label=");
    reveal_strlit("--node-label=node-role=ci-runner");
    reveal_strlit("--node-label=managed-by=gitea-ci-autoscaler --node-label=node-role=ci-runner");
    let whole = DEFAULT_AGENT_ARGS@;
    let first = "--node-label="@ + NODE_SELECTOR@;
    assert(whole =~= Seq::<char>::empty() + first + whole.skip(first.len() as int));
    let second = "--node-label=node-role=ci-runner"@;
    assert(whole =~= whole.take(whole.len() - second.len()) + second + Seq::<char>::empty());
}

} // verus!
