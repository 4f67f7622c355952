# gitea-ci-autoscaler

An autoscaler for [Gitea Actions](https://docs.gitea.com/usage/actions/overview) runners on
Hetzner Cloud. It creates servers that join a K3s cluster while Linux jobs wait, and tears idle
ones down near the end of the hour that they are billed for.

The decisions are a library that is verified with [Verus](https://github.com/verus-lang/verus).
The program around it talks to Gitea, Hetzner and Kubernetes and does what the library says.

## How it works

One iteration of the control loop is a state machine (`control_loop`). `Autoscaler::request`
names the call that comes next, and `Autoscaler::advance` takes in how it ended.

1. Ask Gitea for waiting, queued and running jobs and for runners, Hetzner for servers, and
   Kubernetes for nodes and runner pods. If Gitea does not answer, nothing is done.
2. Match servers with nodes and runners (`reconcile`), and carry over what the previous iteration
   knew: teardown goes on, idle times go on, servers that are not listed yet are not forgotten.
3. Delete servers that did not become ready in time, each once: those whose node has not joined
   the cluster, and those whose node has joined but never had a runner. A node that was ready
   once and loses its runner is kept.
4. Create a server for each waiting job that no idle, provisioning or permanent runner can take,
   up to the limit.
5. Tear down nodes that are idle for long enough and in their billing window: deregister the
   runner, drain the node, delete the node, delete the server. What fails is tried again in the
   next iteration.

```
[Create Server] -> Provisioning -> Busy -> Idle -> Deregistering -> Draining -> Removing -> [Deleted]
```

## Layout

| Path | Contents |
|---|---|
| `src/control_loop.rs` | One iteration as a state machine |
| `src/control_laws.rs` | What holds of an iteration as a whole |
| `src/node_manager.rs` | The managed nodes: scaling up, teardown, billing window |
| `src/reconcile.rs` | From what the services report to the managed nodes |
| `src/metrics.rs` | What is counted and measured, and how it is exported |
| `src/config.rs` | Configuration from environment variables |
| `src/cloud_init.rs` | The document by which a server joins the cluster |
| `src/gitea.rs`, `src/hetzner.rs`, `src/k8s.rs` | What is asked of each service, and how answers are read |
| `src/time.rs` | Instants and spans; calendar arithmetic is `chrono`'s |
| `src/seqs.rs`, `src/text.rs` | Sequences and text |
| `app/` | The program: HTTP clients, logging, export to Prometheus |
| `tests/` | Tests of the library |

Public proof functions state what holds of several operations together, such as that scaling up
keeps the limit or that an iteration comes to an end.

## Configuration

| Variable | Default | Description |
|---|---|---|
| `HETZNER_API_TOKEN` | *required* | Hetzner Cloud API token |
| `GITEA_ADMIN_TOKEN` | *required* | Gitea admin API token |
| `CLUSTER_SECRET` | *required* | K3s join token for new nodes |
| `GITEA_API_URL` | *required* | Gitea API endpoint |
| `PUSHGATEWAY_URL` | *required* | Prometheus Pushgateway endpoint |
| `RUNNER_NAMESPACE` | `gitea-runners` | Kubernetes namespace of the runner pods |
| `MAX_NODES` | `5` | Maximum number of managed nodes |
| `POLL_INTERVAL_SECS` | `5` | Seconds from one iteration to the next |
| `IDLE_TIMEOUT_MINS` | `5` | How long a node must be idle before teardown |
| `BILLING_WINDOW_MINS` | `5` | Tear down only in the last minutes of a billing hour |
| `PROVISIONING_TIMEOUT_SECS` | `600` | How long a server may take to become ready |
| `HETZNER_SERVER_TYPE` | `ccx33` | Hetzner instance type |
| `HETZNER_LOCATION` | `nbg1` | Hetzner location |
| `HETZNER_IMAGE` | `ubuntu-24.04` | OS image of new servers |
| `K3S_AGENT_ARGS` | the two node labels | Arguments of the `k3s agent` command |
