//! What holds of the probes of a cluster: which nodes they use, what their
//! pods are told, and what is told of them.

use super::annotations;
use super::annotations::{Family, FiguresModel, VerdictModel};
use super::pair;
use super::pair::NodeView;
use super::pods;
use super::pods::{EnvModel, EnvValueModel, IpLook, IpModel, Phase, PodLook, PodModel, PodObject, Role, WaitModel};
use super::reconcile;
use super::reconcile::{ActionModel, Event, EventModel, Probe, StageModel, Target};
use super::results;
use super::results::ProbeRecord;
use super::Resolved;
use crate::k8s::labeler;
use crate::k8s::node;
use crate::k8s::node::NodeObject;
use crate::number;
use crate::prober;
use crate::scan;
use crate::sorting;
use crate::text;
use crate::textmap;
use crate::textmap::TextMap;
use crate::time;
use vstd::prelude::*;

verus! {

// ---------------------------------------------------------------------
// What a pod is told
// ---------------------------------------------------------------------

/// The values of the environment variables with the given name.
pub open spec fn env_values(env: Seq<EnvModel>, name: Seq<char>) -> Seq<EnvValueModel>
    decreases env.len(),
{
    if env.len() == 0 {
        Seq::empty()
    } else {
        let head = env_values(env.drop_last(), name);
        if env.last().0 == name {
            head.push(env.last().1)
        } else {
            head
        }
    }
}

/// The values of the labels with the given key.
pub open spec fn label_values(labels: Seq<(Seq<char>, Seq<char>)>, key: Seq<char>) -> Seq<Seq<char>>
    decreases labels.len(),
{
    if labels.len() == 0 {
        Seq::empty()
    } else {
        let head = label_values(labels.drop_last(), key);
        if labels.last().0 == key {
            head.push(labels.last().1)
        } else {
            head
        }
    }
}

/// The variable is set once, to the text.
pub open spec fn is_told(p: PodModel, name: Seq<char>, value: Seq<char>) -> bool {
    env_values(p.env, name) == seq![EnvValueModel::Literal(value)]
}

/// The label is set once, to the text.
pub open spec fn is_labelled(p: PodModel, key: Seq<char>, value: Seq<char>) -> bool {
    label_values(p.labels, key) == seq![value]
}

/// The value is at the index, and nowhere else.
proof fn lemma_env_once(env: Seq<EnvModel>, i: int)
    requires
        0 <= i < env.len(),
        forall|j: int| 0 <= j < env.len() && j != i ==> (#[trigger] env[j]).0 != env[i].0,
    ensures
        env_values(env, env[i].0) == seq![env[i].1],
    decreases env.len(),
{
    let name = env[i].0;
    let h = env.drop_last();
    if i == env.len() - 1 {
        assert forall|j: int| 0 <= j < h.len() implies (#[trigger] h[j]).0 != name by {
            assert(h[j] == env[j]);
        }
        lemma_env_never(h, name);
        assert(Seq::<EnvValueModel>::empty().push(env[i].1) =~= seq![env[i].1]);
    } else {
        assert(h[i] == env[i]);
        assert forall|j: int| 0 <= j < h.len() && j != i implies (#[trigger] h[j]).0 != name by {
            assert(h[j] == env[j]);
        }
        lemma_env_once(h, i);
        assert(env[env.len() - 1].0 != name);
    }
}

proof fn lemma_env_never(env: Seq<EnvModel>, name: Seq<char>)
    requires
        forall|j: int| 0 <= j < env.len() ==> (#[trigger] env[j]).0 != name,
    ensures
        env_values(env, name) == Seq::<EnvValueModel>::empty(),
    decreases env.len(),
{
    if env.len() > 0 {
        let h = env.drop_last();
        assert forall|j: int| 0 <= j < h.len() implies (#[trigger] h[j]).0 != name by {
            assert(h[j] == env[j]);
        }
        lemma_env_never(h, name);
        assert(env[env.len() - 1].0 != name);
    }
}

proof fn lemma_label_once(l: Seq<(Seq<char>, Seq<char>)>, i: int)
    requires
        0 <= i < l.len(),
        forall|j: int| 0 <= j < l.len() && j != i ==> (#[trigger] l[j]).0 != l[i].0,
    ensures
        label_values(l, l[i].0) == seq![l[i].1],
    decreases l.len(),
{
    let h = l.drop_last();
    if i == l.len() - 1 {
        assert forall|j: int| 0 <= j < h.len() implies (#[trigger] h[j]).0 != l[i].0 by {
            assert(h[j] == l[j]);
        }
        lemma_label_never(h, l[i].0);
        assert(Seq::<Seq<char>>::empty().push(l[i].1) =~= seq![l[i].1]);
    } else {
        assert(h[i] == l[i]);
        assert forall|j: int| 0 <= j < h.len() && j != i implies (#[trigger] h[j]).0 != l[i].0 by {
            assert(h[j] == l[j]);
        }
        lemma_label_once(h, i);
        assert(l[l.len() - 1].0 != l[i].0);
    }
}

proof fn lemma_label_never(l: Seq<(Seq<char>, Seq<char>)>, key: Seq<char>)
    requires
        forall|j: int| 0 <= j < l.len() ==> (#[trigger] l[j]).0 != key,
    ensures
        label_values(l, key) == Seq::<Seq<char>>::empty(),
    decreases l.len(),
{
    if l.len() > 0 {
        let h = l.drop_last();
        assert forall|j: int| 0 <= j < h.len() implies (#[trigger] h[j]).0 != key by {
            assert(h[j] == l[j]);
        }
        lemma_label_never(h, key);
        assert(l[l.len() - 1].0 != key);
    }
}

proof fn lemma_env_names(env: Seq<EnvModel>)
    requires
        env.len() == 11 || env.len() == 12,
        env[0].0 == "ACCELRD_PROBE_DURATION_SECS"@,
        env[1].0 == "ACCELRD_PROBE_SRC_RACK"@,
        env[2].0 == "ACCELRD_PROBE_PARTNER_NODE"@,
        env[3].0 == "ACCELRD_OTLP_ENDPOINT"@,
        env[4].0 == "OTEL_SERVICE_NAME"@,
        env[5].0 == "RUST_LOG"@,
        env[6].0 == "NODE_NAME"@,
        env[7].0 == "POD_NAME"@,
        env[8].0 == "POD_UID"@,
        env[9].0 == "POD_NAMESPACE"@,
        env[10].0 == "CONTAINER_NAME"@,
        env.len() == 12 ==> env[11].0 == "ACCELRD_PROBE_SERVER"@,
    ensures
        forall|i: int, j: int|
            0 <= i < env.len() && 0 <= j < env.len() && i != j ==> (#[trigger] env[i]).0 != (#[trigger] env[j]).0,
        env.len() == 11 ==> forall|j: int|
            0 <= j < env.len() ==> (#[trigger] env[j]).0 != "ACCELRD_PROBE_SERVER"@,
{
    reveal_strlit("ACCELRD_PROBE_DURATION_SECS");
    reveal_strlit("ACCELRD_PROBE_SRC_RACK");
    reveal_strlit("ACCELRD_PROBE_PARTNER_NODE");
    reveal_strlit("ACCELRD_OTLP_ENDPOINT");
    reveal_strlit("OTEL_SERVICE_NAME");
    reveal_strlit("RUST_LOG");
    reveal_strlit("NODE_NAME");
    reveal_strlit("POD_NAME");
    reveal_strlit("POD_UID");
    reveal_strlit("POD_NAMESPACE");
    reveal_strlit("CONTAINER_NAME");
    reveal_strlit("ACCELRD_PROBE_SERVER");
    assert forall|i: int, j: int| 0 <= i < env.len() && 0 <= j < env.len() && i != j implies (#[trigger] env[i]).0
        != (#[trigger] env[j]).0 by {
        let (x, y) = (env[i].0, env[j].0);
        assert(x.len() != y.len() || x[0] != y[0] || x[4] != y[4]);
    }
    if env.len() == 11 {
        let s = "ACCELRD_PROBE_SERVER"@;
        assert forall|j: int| 0 <= j < env.len() implies (#[trigger] env[j]).0 != s by {
            let x = env[j].0;
            assert(x.len() != s.len() || x[0] != s[0]);
        }
    }
}

proof fn lemma_label_names(l: Seq<(Seq<char>, Seq<char>)>)
    requires
        l.len() == 6,
        l[0].0 == "app.kubernetes.io/name"@,
        l[1].0 == "app.kubernetes.io/component"@,
        l[2].0 == "app.kubernetes.io/managed-by"@,
        l[3].0 == "accel-test.lunnova.dev/role"@,
        l[4].0 == "accel-test.lunnova.dev/rack"@,
        l[5].0 == "accel-test.lunnova.dev/pair"@,
    ensures
        forall|i: int, j: int|
            0 <= i < 6 && 0 <= j < 6 && i != j ==> (#[trigger] l[i]).0 != (#[trigger] l[j]).0,
{
    reveal_strlit("app.kubernetes.io/name");
    reveal_strlit("app.kubernetes.io/component");
    reveal_strlit("app.kubernetes.io/managed-by");
    reveal_strlit("accel-test.lunnova.dev/role");
    reveal_strlit("accel-test.lunnova.dev/rack");
    reveal_strlit("accel-test.lunnova.dev/pair");
    assert forall|i: int, j: int| 0 <= i < 6 && 0 <= j < 6 && i != j implies (#[trigger] l[i]).0 != (
    #[trigger] l[j]).0 by {
        let (x, y) = (l[i].0, l[j].0);
        assert(x.len() != y.len() || x[2] != y[2] || x[23] != y[23] || x[24] != y[24]);
    }
}

/// A probe pod runs the side it was made for on the node it was made for,
/// with the image, the namespace and the length of the test that the prober
/// was given. It knows its rack and its partner, and carries them with the
/// tag of the probe; and only a client knows a server, at the address that
/// was given.
pub open spec fn is_pod_of(
    p: PodModel,
    client: bool,
    on: Seq<char>,
    with: Seq<char>,
    server_ip: Option<Seq<char>>,
    rack: Seq<char>,
    tag: Seq<char>,
    args: Resolved,
) -> bool {
    let side = if client {
        "client"@
    } else {
        "server"@
    };
    &&& p.node_name == on
    &&& p.args == seq!["probe"@, "--mode"@, side]
    &&& args.probe_image is Some && p.image == args.probe_image->0@
    &&& p.namespace == args.namespace@
    &&& p.restart_policy == "Never"@
    &&& p.host_network
    &&& is_told(p, "ACCELRD_PROBE_DURATION_SECS"@, number::decimal(args.test_duration_secs as nat))
    &&& is_told(p, "ACCELRD_PROBE_SRC_RACK"@, rack)
    &&& is_told(p, "ACCELRD_PROBE_PARTNER_NODE"@, with)
    &&& is_told(p, "ACCELRD_OTLP_ENDPOINT"@, args.otlp_endpoint@)
    &&& match server_ip {
        Some(ip) => is_told(p, "ACCELRD_PROBE_SERVER"@, ip),
        None => env_values(p.env, "ACCELRD_PROBE_SERVER"@).len() == 0,
    }
    &&& env_values(p.env, "NODE_NAME"@) == seq![EnvValueModel::Field("spec.nodeName"@)]
    &&& env_values(p.env, "POD_NAME"@) == seq![EnvValueModel::Field("metadata.name"@)]
    &&& env_values(p.env, "POD_UID"@) == seq![EnvValueModel::Field("metadata.uid"@)]
    &&& env_values(p.env, "POD_NAMESPACE"@) == seq![EnvValueModel::Field("metadata.namespace"@)]
    &&& is_told(p, "OTEL_SERVICE_NAME"@, "accelrd-probe"@)
    &&& is_told(p, "RUST_LOG"@, "info,opentelemetry=warn,reqwest=error"@)
    &&& is_told(p, "CONTAINER_NAME"@, "probe"@)
    &&& is_labelled(p, "app.kubernetes.io/name"@, "accelrd-probe"@)
    &&& is_labelled(p, "app.kubernetes.io/component"@, "probe"@)
    &&& is_labelled(p, "app.kubernetes.io/managed-by"@, "accelrd-prober"@)
    &&& is_labelled(p, "accel-test.lunnova.dev/role"@, side)
    &&& is_labelled(p, "accel-test.lunnova.dev/rack"@, rack)
    &&& is_labelled(p, "accel-test.lunnova.dev/pair"@, tag)
}

proof fn lemma_manifest(
    client: bool,
    on: Seq<char>,
    with: Seq<char>,
    server_ip: Option<Seq<char>>,
    rack: Seq<char>,
    tag: Seq<char>,
    args: Resolved,
)
    requires
        args.probe_image is Some,
        client == server_ip is Some,
    ensures
        ({
            let role = if client {
                Role::Client
            } else {
                Role::Server
            };
            is_pod_of(
                pods::manifest_of(role, on, with, server_ip, rack, tag, args, args.probe_image->0@),
                client,
                on,
                with,
                server_ip,
                rack,
                tag,
                args,
            )
        }),
{
    let role = if client {
        Role::Client
    } else {
        Role::Server
    };
    let p = pods::manifest_of(role, on, with, server_ip, rack, tag, args, args.probe_image->0@);
    lemma_env_names(p.env);
    lemma_label_names(p.labels);
    lemma_env_once(p.env, 0);
    lemma_env_once(p.env, 1);
    lemma_env_once(p.env, 2);
    lemma_env_once(p.env, 3);
    lemma_env_once(p.env, 6);
    lemma_env_once(p.env, 7);
    lemma_env_once(p.env, 4);
    lemma_env_once(p.env, 5);
    lemma_env_once(p.env, 8);
    lemma_env_once(p.env, 9);
    lemma_env_once(p.env, 10);
    if client {
        lemma_env_once(p.env, 11);
    } else {
        lemma_env_never(p.env, "ACCELRD_PROBE_SERVER"@);
    }
    lemma_label_once(p.labels, 0);
    lemma_label_once(p.labels, 1);
    lemma_label_once(p.labels, 2);
    lemma_label_once(p.labels, 3);
    lemma_label_once(p.labels, 4);
    lemma_label_once(p.labels, 5);
}

/// What a container of a probe may do: it runs as root without more
/// privileges than locking memory and raw sockets, on a file system that it
/// cannot write, with the host's RDMA devices.
pub proof fn law_probe_pod_is_confined(
    role: Role,
    on: Seq<char>,
    with: Seq<char>,
    ip: Option<Seq<char>>,
    rack: Seq<char>,
    tag: Seq<char>,
    args: Resolved,
    image: Seq<char>,
)
    ensures
        ({
            let p = pods::manifest_of(role, on, with, ip, rack, tag, args, image);
            &&& p.run_as_user == 0
            &&& !p.allow_privilege_escalation
            &&& p.read_only_root_filesystem
            &&& !p.automount_service_account_token
            &&& p.drop_capabilities == seq!["ALL"@]
            &&& p.add_capabilities.to_set() == set!["IPC_LOCK"@, "NET_RAW"@]
            &&& p.mounts.len() == 2
            &&& p.mounts[0].name == "dev-infiniband"@ && p.mounts[0].path == "/dev/infiniband"@
            &&& !p.mounts[0].read_only && !p.mounts[0].must_be_directory
            &&& p.mounts[1].name == "sys"@ && p.mounts[1].path == "/sys"@
            &&& p.mounts[1].read_only && p.mounts[1].must_be_directory
            &&& p.seccomp_profile == "RuntimeDefault"@
            &&& p.host_network && p.dns_policy == "ClusterFirstWithHostNet"@
            &&& p.restart_policy == "Never"@
            &&& p.image == image && p.image_pull_policy == "IfNotPresent"@
            &&& p.container_name == "probe"@
            &&& p.namespace == args.namespace@
            &&& p.generate_name == "accelrd-probe-"@ + role.name() + "-"@
            &&& p.cpu_request == "100m"@ && p.memory_request == "64Mi"@
            &&& p.cpu_limit == "500m"@ && p.memory_limit == "256Mi"@
            &&& p.tolerated_taints == seq!["nvidia.com/gpu"@, "amd.com/gpu"@, "accelerator"@]
        }),
{
    let p = pods::manifest_of(role, on, with, ip, rack, tag, args, image);
    let caps = p.add_capabilities;
    assert(caps[0] == "IPC_LOCK"@ && caps[1] == "NET_RAW"@);
    assert(caps.to_set() =~= set!["IPC_LOCK"@, "NET_RAW"@]);
}

// ---------------------------------------------------------------------
// How a probe goes
// ---------------------------------------------------------------------

/// The actions make one pod, and that is the only thing they do.
pub open spec fn makes_only(actions: Seq<ActionModel>, p: PodModel) -> bool {
    actions == seq![ActionModel::CreatePod(p)]
}

/// A probe of a pair runs its server on the first node and its client on the
/// second, each knowing the other; the client is sent to the address that the
/// server got. Where the nodes have different names the two pods run on
/// different nodes.
pub proof fn law_pair_probe_uses_both_nodes(
    p: Probe,
    a: NodeView,
    b: NodeView,
    server: Seq<char>,
    ip: Seq<char>,
) -> (pods: (PodModel, PodModel))
    requires
        p.target == Target::Pair(a, b),
        p.args.probe_image is Some,
    ensures
        p.started().0 == StageModel::CreatingServer,
        makes_only(p.started().1, pods.0),
        is_pod_of(pods.0, false, a.name@, b.name@, None, p.rack@, p.pair_id@, p.args),
        p.stepped(StageModel::AwaitingIp(server), EventModel::Ip(Ok(ip))).0 == StageModel::CreatingClient(server),
        makes_only(p.stepped(StageModel::AwaitingIp(server), EventModel::Ip(Ok(ip))).1, pods.1),
        is_pod_of(pods.1, true, b.name@, a.name@, Some(ip), p.rack@, p.pair_id@, p.args),
        a.name@ != b.name@ ==> pods.0.node_name != pods.1.node_name,
{
    lemma_manifest(false, a.name@, b.name@, None, p.rack@, p.pair_id@, p.args);
    lemma_manifest(true, b.name@, a.name@, Some(ip), p.rack@, p.pair_id@, p.args);
    let image = p.args.probe_image->0@;
    (
        pods::manifest_of(Role::Server, a.name@, b.name@, None, p.rack@, p.pair_id@, p.args, image),
        pods::manifest_of(Role::Client, b.name@, a.name@, Some(ip), p.rack@, p.pair_id@, p.args, image),
    )
}

/// A probe of a node by itself runs both its pods on that node.
pub proof fn law_loopback_probe_stays_on_node(p: Probe, n: NodeView, server: Seq<char>, ip: Seq<char>) -> (pods: (
    PodModel,
    PodModel,
))
    requires
        p.target == Target::Loopback(n),
        p.args.probe_image is Some,
    ensures
        p.started().0 == StageModel::CreatingServer,
        makes_only(p.started().1, pods.0),
        is_pod_of(pods.0, false, n.name@, n.name@, None, p.rack@, p.pair_id@, p.args),
        p.stepped(StageModel::AwaitingIp(server), EventModel::Ip(Ok(ip))).0 == StageModel::CreatingClient(server),
        makes_only(p.stepped(StageModel::AwaitingIp(server), EventModel::Ip(Ok(ip))).1, pods.1),
        is_pod_of(pods.1, true, n.name@, n.name@, Some(ip), p.rack@, p.pair_id@, p.args),
{
    lemma_manifest(false, n.name@, n.name@, None, p.rack@, p.pair_id@, p.args);
    lemma_manifest(true, n.name@, n.name@, Some(ip), p.rack@, p.pair_id@, p.args);
    let image = p.args.probe_image->0@;
    (
        pods::manifest_of(Role::Server, n.name@, n.name@, None, p.rack@, p.pair_id@, p.args, image),
        pods::manifest_of(Role::Client, n.name@, n.name@, Some(ip), p.rack@, p.pair_id@, p.args, image),
    )
}

/// Without an image a probe makes no pod: it fails at once.
pub proof fn law_no_image_no_pod(p: Probe)
    requires
        p.args.probe_image is None,
    ensures
        p.started().0 == StageModel::Finished,
        forall|i: int| 0 <= i < p.started().1.len() ==> (#[trigger] p.started().1[i]) !is CreatePod,
        reconcile::verdicts(p.started().1).len() == 1,
        reconcile::verdicts(p.started().1)[0] is Fail,
{
    reveal_with_fuel(reconcile::verdicts, 4);
    let s = p.started().1;
    let none = Seq::<Seq<char>>::empty();
    assert(none.map_values(|x: Seq<char>| ActionModel::DeletePod(x)) =~= Seq::empty());
    assert(s.len() == 2);
    assert(s.drop_last().drop_last() =~= Seq::empty());
}

/// A probe that goes well waits for the server's address, then makes the
/// client, then waits for the client's end, then reads its record.
pub proof fn law_course_of_a_good_probe(p: Probe, server: Seq<char>, client: Seq<char>)
    requires
        p.args.test_duration_secs <= u64::MAX - 120,
    ensures
        p.stepped(StageModel::CreatingServer, EventModel::Created(Ok(Some(server)))) == (
            StageModel::AwaitingIp(server),
            seq![ActionModel::AwaitIp(server, 60)],
        ),
        p.stepped(StageModel::CreatingClient(server), EventModel::Created(Ok(Some(client)))) == (
            StageModel::Running(server, client),
            seq![ActionModel::AwaitTerminal(client, (p.args.test_duration_secs + 120) as nat)],
        ),
        p.stepped(StageModel::Running(server, client), EventModel::Ended(Ok(Phase::Succeeded))) == (
            StageModel::Reading(server, client),
            seq![ActionModel::ReadRecord(client)],
        ),
{
}

/// The verdict that a record gives: that of the probe program itself, with
/// what it measured or why it failed.
pub open spec fn is_verdict_of(v: VerdictModel, r: ProbeRecord<String>) -> bool {
    if r.ok {
        v is Passed && {
            let f = v->Passed_0;
            &&& f.device == r.device@
            &&& f.bw_avg == text::opt_text(r.bw_avg_gbps)
            &&& f.bw_peak == text::opt_text(r.bw_peak_gbps)
            &&& f.msg_rate == text::opt_text(r.msg_rate_mpps)
        }
    } else {
        v is Fail && (r.message is Some ==> v->Fail_0 == r.message->0@)
    }
}

/// The actions tell the verdict once and count it under the probe's own
/// metric and rack; and they delete just the given pods.
pub open spec fn tells(p: Probe, actions: Seq<ActionModel>, v: VerdictModel, pods: Seq<Seq<char>>) -> bool {
    let metric = if p.target is Pair {
        "roce.probe.attempts.total"@
    } else {
        "roce.probe.loopback.attempts.total"@
    };
    let word = match v {
        VerdictModel::Passed(_) => "ok"@,
        VerdictModel::Fail(_) => "fail"@,
        VerdictModel::Timeout => "timeout"@,
    };
    &&& actions.len() == 2 + pods.len()
    &&& actions.contains(ActionModel::Patch(v))
    &&& actions.contains(ActionModel::Count { metric, rack: p.rack@, verdict: word })
    &&& forall|i: int|
        0 <= i < pods.len() ==> actions.contains(ActionModel::DeletePod(#[trigger] pods[i]))
}

proof fn lemma_concluded_tells(p: Probe, server: Seq<char>, client: Seq<char>, v: VerdictModel)
    ensures
        tells(p, p.concluded(server, client, v).1, v, seq![server, client]),
{
    let s = p.concluded(server, client, v).1;
    assert(s.len() == 4);
    assert(s[0] is Count && s[1] == ActionModel::Patch(v));
    assert(s[2] == ActionModel::DeletePod(client) && s[3] == ActionModel::DeletePod(server));
}

proof fn lemma_given_up_tells(p: Probe, pods: Seq<Seq<char>>, message: Seq<char>)
    ensures
        tells(p, p.given_up(pods, message).1, VerdictModel::Fail(message), pods),
{
    let s = p.given_up(pods, message).1;
    let n = pods.len() as int;
    assert(s.len() == n + 2);
    assert(s[n] is Count && s[n + 1] == ActionModel::Patch(VerdictModel::Fail(message)));
    assert forall|i: int| 0 <= i < pods.len() implies s.contains(ActionModel::DeletePod(#[trigger] pods[i])) by {
        assert(s[i] == ActionModel::DeletePod(pods[i]));
    }
}

/// Once the client's record is read, the probe is told of as the record says,
/// and both its pods go.
pub proof fn law_record_decides(p: Probe, server: Seq<char>, client: Seq<char>, r: ProbeRecord<String>) -> (v:
    VerdictModel)
    ensures
        ({
            let e = Event::Record(Ok(r));
            let (stage, actions) = p.stepped(StageModel::Reading(server, client), e@);
            &&& stage == StageModel::Finished
            &&& is_verdict_of(v, r)
            &&& tells(p, actions, v, seq![server, client])
        }),
{
    let v = reconcile::verdict_of(r);
    lemma_concluded_tells(p, server, client, v);
    v
}

/// A probe whose client fails or does not end in time is told of as failed or
/// as timed out, and both its pods go.
pub proof fn law_bad_end_is_told(p: Probe, server: Seq<char>, client: Seq<char>)
    ensures
        ({
            let (stage, actions) = p.stepped(
                StageModel::Running(server, client),
                EventModel::Ended(Ok(Phase::Failed)),
            );
            &&& stage == StageModel::Finished
            &&& tells(p, actions, VerdictModel::Fail("client pod phase Failed"@), seq![server, client])
        }),
        ({
            let (stage, actions) = p.stepped(
                StageModel::Running(server, client),
                EventModel::Ended(Ok(Phase::Timeout)),
            );
            &&& stage == StageModel::Finished
            &&& tells(p, actions, VerdictModel::Timeout, seq![server, client])
        }),
{
    lemma_concluded_tells(p, server, client, VerdictModel::Fail("client pod phase Failed"@));
    lemma_concluded_tells(p, server, client, VerdictModel::Timeout);
}

/// A probe that cannot go on fails with what was being done and why, and the
/// pods that were made for it go.
pub proof fn law_trouble_is_told(p: Probe, server: Seq<char>, client: Seq<char>, e: Seq<char>)
    ensures
        tells(
            p,
            p.stepped(StageModel::CreatingServer, EventModel::Unbuilt(e)).1,
            VerdictModel::Fail("build server pod: "@ + e),
            Seq::empty(),
        ),
        tells(
            p,
            p.stepped(StageModel::CreatingServer, EventModel::Created(Err(e))).1,
            VerdictModel::Fail("create server pod: "@ + e),
            Seq::empty(),
        ),
        tells(
            p,
            p.stepped(StageModel::AwaitingIp(server), EventModel::Ip(Err(e))).1,
            VerdictModel::Fail("server pod IP: "@ + e),
            seq![server],
        ),
        tells(
            p,
            p.stepped(StageModel::CreatingClient(server), EventModel::Unbuilt(e)).1,
            VerdictModel::Fail("build client pod: "@ + e),
            seq![server],
        ),
        tells(
            p,
            p.stepped(StageModel::CreatingClient(server), EventModel::Created(Err(e))).1,
            VerdictModel::Fail("create client pod: "@ + e),
            seq![server],
        ),
        tells(
            p,
            p.stepped(StageModel::Running(server, client), EventModel::Ended(Err(e))).1,
            VerdictModel::Fail("watch client pod: "@ + e),
            seq![server, client],
        ),
        tells(
            p,
            p.stepped(StageModel::Reading(server, client), EventModel::Record(Err(e))).1,
            VerdictModel::Fail("read client pod: "@ + e),
            seq![server, client],
        ),
{
    lemma_given_up_tells(p, Seq::empty(), "build server pod: "@ + e);
    lemma_given_up_tells(p, Seq::empty(), "create server pod: "@ + e);
    lemma_given_up_tells(p, seq![server], "server pod IP: "@ + e);
    lemma_given_up_tells(p, seq![server], "build client pod: "@ + e);
    lemma_given_up_tells(p, seq![server], "create client pod: "@ + e);
    lemma_given_up_tells(p, seq![server, client], "watch client pod: "@ + e);
    lemma_concluded_tells(p, server, client, VerdictModel::Fail("read client pod: "@ + e));
}

// ---------------------------------------------------------------------
// What nodes carry
// ---------------------------------------------------------------------

/// The map holds the text at the key, or nothing.
pub open spec fn shows(m: Map<Seq<char>, Seq<char>>, key: Seq<char>, value: Option<Seq<char>>) -> bool {
    match value {
        Some(v) => m.contains_key(key) && m[key] == v,
        None => !m.contains_key(key),
    }
}

/// After a probe between nodes that passed, a node carries its time, its
/// partner, its verdict and its device, and each figure that was measured,
/// under the key of that figure; and no reason.
pub proof fn law_pass_is_annotated(
    current: Map<Seq<char>, Seq<char>>,
    partner: Seq<char>,
    now: Seq<char>,
    f: FiguresModel,
)
    ensures
        ({
            let after = labeler::patched(
                current,
                annotations::body_of(Family::Rack, Some(partner), now, VerdictModel::Passed(f)),
            );
            &&& shows(after, "accel-test.lunnova.dev/last-rack-at"@, Some(now))
            &&& shows(after, "accel-test.lunnova.dev/last-rack-partner"@, Some(partner))
            &&& shows(after, "accel-test.lunnova.dev/last-rack-verdict"@, Some("ok"@))
            &&& shows(after, "accel-test.lunnova.dev/last-rack-device"@, Some(f.device))
            &&& shows(after, "accel-test.lunnova.dev/last-rack-reason"@, None)
            &&& f.bw_avg is Some ==> shows(after, "accel-test.lunnova.dev/last-rack-bw-gbps"@, f.bw_avg)
            &&& f.bw_peak is Some ==> shows(after, "accel-test.lunnova.dev/last-rack-bw-peak-gbps"@, f.bw_peak)
            &&& f.msg_rate is Some ==> shows(
                after,
                "accel-test.lunnova.dev/last-rack-msg-rate-mpps"@,
                f.msg_rate,
            )
        }),
{
    annotations::law_told_node_carries_verdict(
        current,
        Family::Rack,
        Some(partner),
        now,
        VerdictModel::Passed(f),
    );
}

/// The same of a probe of a node by itself, under keys of its own.
pub proof fn law_loopback_pass_is_annotated(current: Map<Seq<char>, Seq<char>>, now: Seq<char>, f: FiguresModel)
    ensures
        ({
            let after = labeler::patched(
                current,
                annotations::body_of(Family::Loopback, None, now, VerdictModel::Passed(f)),
            );
            &&& shows(after, "accel-test.lunnova.dev/last-loopback-at"@, Some(now))
            &&& shows(after, "accel-test.lunnova.dev/last-loopback-verdict"@, Some("ok"@))
            &&& shows(after, "accel-test.lunnova.dev/last-loopback-device"@, Some(f.device))
            &&& shows(after, "accel-test.lunnova.dev/last-loopback-reason"@, None)
            &&& f.bw_avg is Some ==> shows(after, "accel-test.lunnova.dev/last-loopback-bw-gbps"@, f.bw_avg)
            &&& f.bw_peak is Some ==> shows(
                after,
                "accel-test.lunnova.dev/last-loopback-bw-peak-gbps"@,
                f.bw_peak,
            )
            &&& f.msg_rate is Some ==> shows(
                after,
                "accel-test.lunnova.dev/last-loopback-msg-rate-mpps"@,
                f.msg_rate,
            )
        }),
{
    annotations::law_told_node_carries_verdict(current, Family::Loopback, None, now, VerdictModel::Passed(f));
}

/// After a probe that did not pass, a node carries its verdict and the
/// reason, and no figures.
pub proof fn law_failure_is_annotated(
    current: Map<Seq<char>, Seq<char>>,
    partner: Seq<char>,
    now: Seq<char>,
    reason: Seq<char>,
)
    ensures
        ({
            let after = labeler::patched(
                current,
                annotations::body_of(Family::Rack, Some(partner), now, VerdictModel::Fail(reason)),
            );
            &&& shows(after, "accel-test.lunnova.dev/last-rack-at"@, Some(now))
            &&& shows(after, "accel-test.lunnova.dev/last-rack-partner"@, Some(partner))
            &&& shows(after, "accel-test.lunnova.dev/last-rack-verdict"@, Some("fail"@))
            &&& shows(after, "accel-test.lunnova.dev/last-rack-reason"@, Some(reason))
            &&& shows(after, "accel-test.lunnova.dev/last-rack-bw-gbps"@, None)
            &&& shows(after, "accel-test.lunnova.dev/last-rack-bw-peak-gbps"@, None)
            &&& shows(after, "accel-test.lunnova.dev/last-rack-msg-rate-mpps"@, None)
        }),
        ({
            let after = labeler::patched(
                current,
                annotations::body_of(Family::Rack, Some(partner), now, VerdictModel::Timeout),
            );
            &&& shows(after, "accel-test.lunnova.dev/last-rack-verdict"@, Some("timeout"@))
            &&& after.contains_key("accel-test.lunnova.dev/last-rack-reason"@)
            &&& shows(after, "accel-test.lunnova.dev/last-rack-bw-gbps"@, None)
        }),
        ({
            let after = labeler::patched(
                current,
                annotations::body_of(Family::Loopback, None, now, VerdictModel::Fail(reason)),
            );
            &&& shows(after, "accel-test.lunnova.dev/last-loopback-at"@, Some(now))
            &&& shows(after, "accel-test.lunnova.dev/last-loopback-verdict"@, Some("fail"@))
            &&& shows(after, "accel-test.lunnova.dev/last-loopback-reason"@, Some(reason))
            &&& shows(after, "accel-test.lunnova.dev/last-loopback-bw-gbps"@, None)
            &&& shows(after, "accel-test.lunnova.dev/last-loopback-bw-peak-gbps"@, None)
            &&& shows(after, "accel-test.lunnova.dev/last-loopback-msg-rate-mpps"@, None)
        }),
{
    let v = VerdictModel::Fail(reason);
    annotations::law_told_node_carries_verdict(current, Family::Rack, Some(partner), now, v);
    annotations::law_told_node_carries_verdict(current, Family::Rack, Some(partner), now, VerdictModel::Timeout);
    annotations::law_told_node_carries_verdict(current, Family::Loopback, None, now, v);
    annotations::lemma_keys_differ(Family::Rack);
    annotations::lemma_keys_differ(Family::Loopback);
}

// ---------------------------------------------------------------------
// Which nodes are probed
// ---------------------------------------------------------------------

/// A node can be probed if and only if it is ready, has a name and a rack,
/// and is labelled as one with RDMA. The prober then sees the node's own
/// name, rack and last probe.
pub proof fn law_who_can_be_probed(n: NodeObject)
    ensures
        ({
            let rack = node::lookup(n.labels, "accel-topo.lunnova.dev/rack"@);
            let rdma = node::lookup(n.labels, "accel-net.lunnova.dev/rdma"@);
            let ready = n.conditions is Some && exists|i: int|
                0 <= i < n.conditions->0@.len() && (#[trigger] n.conditions->0@[i]).kind@ == "Ready"@
                    && n.conditions->0@[i].status@ == "True"@;
            let fits = n.name is Some && rack is Some && rdma == Some("present"@);
            let seen = pair::eligible_of(seq![n]);
            &&& seen.len() == if ready && fits {
                1int
            } else {
                0int
            }
            &&& ready && fits ==> seen[0].name == n.name->0@ && seen[0].rack == rack->0 && seen[0].last_at
                == node::lookup(n.annotations, "accel-test.lunnova.dev/last-rack-at"@)
        }),
{
    reveal_with_fuel(pair::eligible_of, 2);
    let s = seq![n];
    assert(s.drop_last() =~= Seq::empty());
    if n.conditions is Some {
        let v = n.conditions->0@;
        assert(node::node_ready(n) == exists|i: int| 0 <= i < v.len() && node::says_ready(#[trigger] v[i]));
        if exists|i: int| 0 <= i < v.len() && (#[trigger] v[i]).kind@ == "Ready"@ && v[i].status@ == "True"@ {
            let i = choose|i: int| 0 <= i < v.len() && (#[trigger] v[i]).kind@ == "Ready"@ && v[i].status@ == "True"@;
            assert(node::says_ready(v[i]));
        }
    }
}

/// Adding a node to a cluster changes nothing of how the others are seen.
pub proof fn law_nodes_are_seen_one_by_one(nodes: Seq<NodeObject>, n: NodeObject)
    ensures
        pair::eligible_of(nodes.push(n)) == pair::eligible_of(nodes) + pair::eligible_of(seq![n]),
{
    reveal_with_fuel(pair::eligible_of, 2);
    assert(nodes.push(n).drop_last() =~= nodes);
    assert(seq![n].drop_last() =~= Seq::empty());
    assert(pair::eligible_of(nodes.push(n)) =~= pair::eligible_of(nodes) + pair::eligible_of(seq![n]));
}

/// The last probe of the one is not more recent than that of the other; a
/// node that was never probed comes first.
pub open spec fn not_after(a: NodeView, b: NodeView) -> bool {
    match (a.last_at, b.last_at) {
        (None, _) => true,
        (Some(_), None) => false,
        (Some(x), Some(y)) => !text::text_lt(y@, x@),
    }
}

/// The two were last probed at the same time, or never.
pub open spec fn as_old(a: NodeView, b: NodeView) -> bool {
    match (a.last_at, b.last_at) {
        (None, None) => true,
        (Some(x), Some(y)) => x@ == y@,
        _ => false,
    }
}

/// The pair of a rack is made of the two nodes whose last probe is longest
/// ago, the older one first; where two were last probed at the same time the
/// lesser name comes first.
pub proof fn law_pair_is_longest_unprobed(members: Seq<NodeView>, cutoff: Seq<char>, i: int)
    requires
        pair::next_pair(members, cutoff) is Some,
        0 <= i < members.len(),
    ensures
        ({
            let (a, b) = pair::next_pair(members, cutoff)->0;
            &&& members.contains(a) && members.contains(b)
            &&& not_after(a, b)
            &&& as_old(a, b) ==> !text::text_lt(b.name@, a.name@)
            &&& members[i] != a && members[i] != b ==> {
                &&& not_after(a, members[i]) && not_after(b, members[i])
                &&& as_old(b, members[i]) ==> !text::text_lt(members[i].name@, b.name@)
            }
        }),
{
    let (a, b) = pair::next_pair(members, cutoff)->0;
    let sorted = pair::by_age(members);
    let before = pair::older();
    pair::law_pair_is_oldest(members, cutoff);
    sorting::lemma_arranged_same_elements(members, before);
    sorting::lemma_arranged_contains(members, before, a);
    sorting::lemma_arranged_contains(members, before, b);
    sorting::lemma_arranged_contains(members, before, members[i]);
    assert(sorted.contains(sorted[0]) && sorted.contains(sorted[1]));
    assert(members.contains(members[i]));
    let k = choose|k: int| 0 <= k < sorted.len() && sorted[k] == members[i];
    assert(!pair::older_model(sorted[1]@, a@));
    lemma_not_older(b, a);
    if members[i] != a && members[i] != b {
        assert(k > 1);
        assert(!pair::older_model(sorted[k]@, a@));
        assert(!pair::older_model(sorted[k]@, b@));
        lemma_not_older(members[i], a);
        lemma_not_older(members[i], b);
    }
}

proof fn lemma_not_older(x: NodeView, y: NodeView)
    requires
        !pair::older_model(x@, y@),
    ensures
        not_after(y, x),
        as_old(y, x) ==> !text::text_lt(x.name@, y.name@),
{
    match (x.last_at, y.last_at) {
        (Some(s), Some(t)) => {
            if s@ == t@ {
                text::lemma_text_lt_irreflexive(s@);
            }
        },
        _ => {},
    }
}

/// A rack is due if and only if it has two nodes or more and one of them was
/// never probed or was last probed at the cutoff or before it.
pub proof fn law_when_a_rack_is_due(members: Seq<NodeView>, cutoff: Seq<char>)
    ensures
        pair::next_pair(members, cutoff) is Some <==> members.len() >= 2 && exists|i: int|
            0 <= i < members.len() && match (#[trigger] members[i]).last_at {
                None => true,
                Some(t) => !text::text_lt(cutoff, t@),
            },
{
    if pair::next_pair(members, cutoff) is Some {
        let sorted = pair::by_age(members);
        let n = if pair::is_fresh(sorted[0], cutoff) {
            sorted[1]
        } else {
            sorted[0]
        };
        sorting::lemma_arranged_same_elements(members, pair::older());
        sorting::lemma_arranged_contains(members, pair::older(), n);
        assert(sorted.contains(n));
        let i = choose|i: int| 0 <= i < members.len() && members[i] == n;
        assert(!pair::is_fresh(members[i], cutoff));
    }
    if members.len() >= 2 {
        if exists|i: int|
            0 <= i < members.len() && match (#[trigger] members[i]).last_at {
                None => true,
                Some(t) => !text::text_lt(cutoff, t@),
            } {
            let i = choose|i: int|
                0 <= i < members.len() && match (#[trigger] members[i]).last_at {
                    None => true,
                    Some(t) => !text::text_lt(cutoff, t@),
                };
            pair::law_stale_rack_is_probed(members, cutoff, i);
        }
    }
}

/// A node alone in its rack is probed by itself, unless it was so probed more
/// recently than the cutoff; and no other node is.
pub proof fn law_when_a_node_is_probed_alone(members: Seq<NodeView>, history: TextMap<String>, cutoff: Seq<char>)
    ensures
        pair::next_loopback(members, history, cutoff) is Some <==> members.len() == 1 && (
        !history@.contains_key(members[0].name@) || !text::text_lt(cutoff, history@[members[0].name@]@)),
        pair::next_loopback(members, history, cutoff) is Some ==> pair::next_loopback(members, history, cutoff)
            == Some(members[0]),
{
}

/// Every rack that is due gets a probe of its own pair, or of its only node,
/// and no other rack gets one.
pub proof fn law_due_racks_are_planned(
    racks: Seq<(String, Vec<NodeView>)>,
    history: TextMap<String>,
    cutoff: Seq<char>,
    k: int,
)
    requires
        0 <= k < racks.len(),
    ensures
        ({
            let plans = reconcile::plans_of(racks, history, cutoff);
            let members = racks[k].1@;
            &&& match pair::next_pair(members, cutoff) {
                Some((a, b)) => plans.contains(
                    reconcile::Plan { rack: racks[k].0, target: Target::Pair(a, b) },
                ),
                None => true,
            }
            &&& match pair::next_loopback(members, history, cutoff) {
                Some(n) => plans.contains(reconcile::Plan { rack: racks[k].0, target: Target::Loopback(n) }),
                None => true,
            }
        }),
    decreases racks.len(),
{
    let plans = reconcile::plans_of(racks, history, cutoff);
    let head = reconcile::plans_of(racks.drop_last(), history, cutoff);
    let members = racks[k].1@;
    pair::law_pair_excludes_loopback(members, history, cutoff);
    if k == racks.len() - 1 {
        if reconcile::target_of(members, history, cutoff) is Some {
            assert(plans[plans.len() - 1] == plans.last());
        }
    } else {
        law_due_racks_are_planned(racks.drop_last(), history, cutoff, k);
        assert(racks.drop_last()[k] == racks[k]);
        assert forall|p: reconcile::Plan| head.contains(p) implies #[trigger] plans.contains(p) by {
            let i = choose|i: int| 0 <= i < head.len() && head[i] == p;
            assert(plans[i] == p);
        }
    }
}

/// A plan says whom it probes: the pair that its rack is due for, or its only
/// node.
pub proof fn law_plans_are_due(
    racks: Seq<(String, Vec<NodeView>)>,
    history: TextMap<String>,
    cutoff: Seq<char>,
    i: int,
) -> (k: int)
    requires
        0 <= i < reconcile::plans_of(racks, history, cutoff).len(),
    ensures
        0 <= k < racks.len(),
        ({
            let plan = reconcile::plans_of(racks, history, cutoff)[i];
            &&& plan.rack == racks[k].0
            &&& match plan.target {
                Target::Pair(a, b) => pair::next_pair(racks[k].1@, cutoff) == Some((a, b)),
                Target::Loopback(n) => pair::next_loopback(racks[k].1@, history, cutoff) == Some(n),
            }
        }),
    decreases racks.len(),
{
    let head = reconcile::plans_of(racks.drop_last(), history, cutoff);
    if i < head.len() {
        let k = law_plans_are_due(racks.drop_last(), history, cutoff, i);
        assert(racks.drop_last()[k] == racks[k]);
        k
    } else {
        racks.len() - 1
    }
}

/// A rack is there if a node is in it. Its members are the nodes of the
/// rack, as often as they occur, by name.
pub proof fn law_racks_of_nodes(nodes: Seq<pair::NodeModel>, rack: Seq<char>, n: pair::NodeModel, i: int, j: int)
    ensures
        ({
            let racks = pair::racks_of(nodes);
            let members = racks[rack];
            &&& racks.contains_key(rack) <==> exists|k: int|
                0 <= k < nodes.len() && (#[trigger] nodes[k]).rack == rack
            &&& racks.contains_key(rack) ==> (members.contains(n) <==> nodes.contains(n) && n.rack == rack)
            &&& racks.contains_key(rack) ==> members.len() == nodes.filter(
                |m: pair::NodeModel| m.rack == rack,
            ).len()
            &&& racks.contains_key(rack) && 0 <= i < j < members.len() ==> !text::text_lt(
                members[j].name,
                members[i].name,
            )
        }),
{
    let keep = |m: pair::NodeModel| m.rack == rack;
    let own = nodes.filter(keep);
    let before = pair::name_before();
    assert(pair::rack_members(nodes, rack) == own);
    let members = sorting::arranged(own, before);
    sorting::lemma_arranged_same_elements(own, before);
    sorting::lemma_arranged_contains(own, before, n);
    if own.contains(n) {
        sorting::lemma_filter_member(nodes, keep, n);
    }
    if nodes.contains(n) && n.rack == rack {
        assert(own.contains(n));
    }
    if pair::has_rack(nodes, rack) {
        assert(pair::racks_of(nodes)[rack] == members);
    }
    assert(sorting::is_ranking(before)) by {
        assert forall|a: pair::NodeModel, b: pair::NodeModel| #[trigger] before(a, b) implies !before(b, a) by {
            text::lemma_text_lt_asymmetric(a.name, b.name);
        }
        assert forall|a: pair::NodeModel, b: pair::NodeModel, c: pair::NodeModel|
            !(#[trigger] before(a, b)) && !(#[trigger] before(b, c)) implies !before(a, c) by {
            text::lemma_text_lt_total(a.name, b.name);
            text::lemma_text_lt_total(b.name, c.name);
            if text::text_lt(a.name, c.name) {
                if text::text_lt(c.name, b.name) {
                    text::lemma_text_lt_transitive(a.name, c.name, b.name);
                }
            }
        }
    }
    sorting::lemma_arranged_in_order(own, before);
    if 0 <= i < j < members.len() {
        assert(!before(members[j], members[i]));
    }
}

/// A node counts as probed by itself at the time in its annotation; of two
/// nodes with one name the later one counts, if it has a time.
pub proof fn law_times_of_loopbacks(nodes: Seq<NodeObject>, n: NodeObject, name: Seq<char>)
    ensures
        ({
            let at = node::lookup(n.annotations, "accel-test.lunnova.dev/last-loopback-at"@);
            let before = pair::loopback_times(nodes);
            let after = pair::loopback_times(nodes.push(n));
            &&& pair::loopback_times(Seq::empty()).dom() == Set::<Seq<char>>::empty()
            &&& n.name is Some && at is Some && n.name->0@ == name ==> after.contains_key(name) && after[name]
                == at->0
            &&& n.name is None || at is None || n.name->0@ != name ==> after.contains_key(name)
                == before.contains_key(name) && (before.contains_key(name) ==> after[name] == before[name])
        }),
{
    assert(nodes.push(n).drop_last() =~= nodes);
    assert(pair::loopback_times(Seq::empty()).dom() =~= Set::<Seq<char>>::empty());
}

// ---------------------------------------------------------------------
// Waiting
// ---------------------------------------------------------------------

/// The wait for a pod's end is over when the pod has succeeded or failed, or
/// when it is late; it is broken when the pod is gone; and it goes on in all
/// other cases.
pub proof fn law_wait_for_the_end(name: Seq<char>, look: PodLook)
    ensures
        ({
            let next = pods::after_look(name, look);
            let phase = match look {
                PodLook::Seen(p) => text::opt_text(p),
                _ => None,
            };
            &&& next == WaitModel::Over(Phase::Timeout) <==> look is Late
            &&& next == WaitModel::Over(Phase::Succeeded) <==> phase == Some("Succeeded"@)
            &&& next == WaitModel::Over(Phase::Failed) <==> phase == Some("Failed"@)
            &&& next is Broken <==> look is Gone
            &&& next is Again <==> look is Failed || (look is Seen && phase != Some("Succeeded"@) && phase != Some(
                "Failed"@,
            ))
        }),
{
    reveal_strlit("Succeeded");
    reveal_strlit("Failed");
    assert("Succeeded"@.len() == 9 && "Failed"@.len() == 6);
}

/// A pod is ready with its own address once it has one that is not empty;
/// the wait is given up when it is late, and goes on otherwise.
pub proof fn law_wait_for_an_address(name: Seq<char>, look: IpLook)
    ensures
        ({
            let next = pods::after_ip_look(name, look);
            let ip = match look {
                IpLook::Seen(p) => text::opt_text(p),
                _ => None,
            };
            &&& next is GiveUp <==> look is Late
            &&& next is Ready <==> ip is Some && ip->0.len() > 0
            &&& next matches IpModel::Ready(a) ==> ip == Some(a)
        }),
{
}

// ---------------------------------------------------------------------
// Leftovers
// ---------------------------------------------------------------------

/// A pod is cleaned up if and only if it has a name and a time of making and
/// is older than the age.
pub proof fn law_leftovers_are_old(pods: Seq<PodObject>, now: u64, max_age: u64, name: Seq<char>)
    requires
        max_age <= now < 253_402_300_800,
        forall|i: int|
            0 <= i < pods.len() && (#[trigger] pods[i]).created is Some ==> -62_167_219_200 <= pods[i].created->0
                < 253_402_300_800,
    ensures
        pods::stale_names(pods, time::stamp(pods::orphan_cutoff(now, max_age) as int)).contains(name)
            <==> exists|i: int|
            0 <= i < pods.len() && text::opt_text((#[trigger] pods[i]).name) == Some(name) && pods[i].created is Some
                && pods[i].created->0 < now - max_age,
    decreases pods.len(),
{
    let cutoff = time::stamp(pods::orphan_cutoff(now, max_age) as int);
    let all = pods::stale_names(pods, cutoff);
    if pods.len() > 0 {
        let front = pods.drop_last();
        let p = pods.last();
        let head = pods::stale_names(front, cutoff);
        assert forall|i: int| 0 <= i < front.len() && (#[trigger] front[i]).created is Some implies -62_167_219_200
            <= front[i].created->0 < 253_402_300_800 by {
            assert(front[i] == pods[i]);
        }
        law_leftovers_are_old(front, now, max_age, name);
        assert(pods[pods.len() - 1] == p);
        if p.created is Some {
            pods::law_stale_means_old(p, now, max_age);
        }
        if head.contains(name) {
            let k = choose|k: int| 0 <= k < head.len() && head[k] == name;
            assert(all[k] == name);
            let i = choose|i: int|
                0 <= i < front.len() && text::opt_text((#[trigger] front[i]).name) == Some(name)
                    && front[i].created is Some && front[i].created->0 < now - max_age;
            assert(pods[i] == front[i]);
        }
        if text::opt_text(p.name) == Some(name) && p.created is Some && p.created->0 < now - max_age {
            assert(all[head.len() as int] == name);
        }
        if all.contains(name) && !head.contains(name) {
            let k = choose|k: int| 0 <= k < all.len() && all[k] == name;
            if k < head.len() {
                assert(head[k] == name);
            }
        }
        if exists|i: int|
            0 <= i < pods.len() && text::opt_text((#[trigger] pods[i]).name) == Some(name) && pods[i].created is Some
                && pods[i].created->0 < now - max_age {
            let i = choose|i: int|
                0 <= i < pods.len() && text::opt_text((#[trigger] pods[i]).name) == Some(name)
                    && pods[i].created is Some && pods[i].created->0 < now - max_age;
            if i < front.len() {
                assert(front[i] == pods[i]);
            }
        }
    }
}

// ---------------------------------------------------------------------
// Arguments and records
// ---------------------------------------------------------------------

/// The number of probes at once is the one given, else that of the
/// environment, else four.
pub proof fn law_probes_at_once(given: Option<u32>, env: Option<nat>)
    ensures
        given matches Some(n) ==> prober::pairs_of(given, env) == n,
        given is None && env is Some && env->0 <= u32::MAX ==> prober::pairs_of(given, env) == env->0,
        given is None && env is None ==> prober::pairs_of(given, env) == 4,
{
}

/// The lines of a pod's output that may hold a record are those that, without
/// white space around them, begin with a brace and end with one, in their
/// order.
pub proof fn law_lines_that_may_hold_a_record(lines: Seq<Seq<char>>, line: Seq<char>)
    ensures
        ({
            let t = scan::trim_space(line);
            let before = results::candidates_of(lines);
            let after = results::candidates_of(lines.push(line));
            &&& results::candidates_of(Seq::empty()).len() == 0
            &&& t.len() > 0 && t[0] == '{' && t[t.len() - 1] == '}' ==> after == before.push(t)
            &&& t.len() == 0 || t[0] != '{' || t[t.len() - 1] != '}' ==> after == before
        }),
{
    assert(lines.push(line).drop_last() =~= lines);
    let t = scan::trim_space(line);
    reveal_strlit("{");
    reveal_strlit("}");
    if t.len() > 0 {
        assert(t.take(1)[0] == t[0]);
        assert(t.skip(t.len() - 1)[0] == t[t.len() - 1]);
        if t[0] == '{' {
            assert(t.take(1) =~= "{"@);
        }
        if t[t.len() - 1] == '}' {
            assert(t.skip(t.len() - 1) =~= "}"@);
        }
    }
}

// ---------------------------------------------------------------------
// Models
// ---------------------------------------------------------------------

/// The model of a pod says of each thing what the pod says of it.
pub proof fn law_model_of_a_pod(p: pods::PodManifest, i: int)
    ensures
        p@.generate_name == p.generate_name@,
        p@.namespace == p.namespace@,
        p@.node_name == p.node_name@,
        p@.restart_policy == p.restart_policy@,
        p@.dns_policy == p.dns_policy@,
        p@.container_name == p.container_name@,
        p@.image == p.image@,
        p@.image_pull_policy == p.image_pull_policy@,
        p@.seccomp_profile == p.seccomp_profile@,
        p@.cpu_request == p.cpu_request@,
        p@.memory_request == p.memory_request@,
        p@.cpu_limit == p.cpu_limit@,
        p@.memory_limit == p.memory_limit@,
        p@.host_network == p.host_network,
        p@.automount_service_account_token == p.automount_service_account_token,
        p@.run_as_user == p.run_as_user,
        p@.allow_privilege_escalation == p.allow_privilege_escalation,
        p@.read_only_root_filesystem == p.read_only_root_filesystem,
        p@.tolerated_taints.len() == p.tolerated_taints@.len(),
        0 <= i < p.tolerated_taints@.len() ==> p@.tolerated_taints[i] == p.tolerated_taints@[i]@,
        p@.args.len() == p.args@.len(),
        0 <= i < p.args@.len() ==> p@.args[i] == p.args@[i]@,
        p@.drop_capabilities.len() == p.drop_capabilities@.len(),
        0 <= i < p.drop_capabilities@.len() ==> p@.drop_capabilities[i] == p.drop_capabilities@[i]@,
        p@.add_capabilities.len() == p.add_capabilities@.len(),
        0 <= i < p.add_capabilities@.len() ==> p@.add_capabilities[i] == p.add_capabilities@[i]@,
        p@.labels.len() == p.labels@.len(),
        0 <= i < p.labels@.len() ==> p@.labels[i] == (p.labels@[i].0@, p.labels@[i].1@),
        p@.env.len() == p.env@.len(),
        0 <= i < p.env@.len() ==> p@.env[i].0 == p.env@[i].name@,
        0 <= i < p.env@.len() ==> (p.env@[i].value matches pods::EnvValue::Literal(s) ==> p@.env[i].1
            == EnvValueModel::Literal(s@)),
        0 <= i < p.env@.len() ==> (p.env@[i].value matches pods::EnvValue::Field(s) ==> p@.env[i].1
            == EnvValueModel::Field(s@)),
        p@.mounts.len() == p.mounts@.len(),
        0 <= i < p.mounts@.len() ==> p@.mounts[i].name == p.mounts@[i].name@,
        0 <= i < p.mounts@.len() ==> p@.mounts[i].path == p.mounts@[i].path@,
        0 <= i < p.mounts@.len() ==> p@.mounts[i].read_only == p.mounts@[i].read_only,
        0 <= i < p.mounts@.len() ==> p@.mounts[i].must_be_directory == p.mounts@[i].must_be_directory,
{
}

/// The model of an action is of the same kind as the action, and names the
/// same things.
pub proof fn law_model_of_an_action(a: reconcile::Action)
    ensures
        a matches reconcile::Action::CreatePod(p) ==> a@ == ActionModel::CreatePod(p@),
        a matches reconcile::Action::AwaitIp(s, n) ==> a@ == ActionModel::AwaitIp(s@, n as nat),
        a matches reconcile::Action::AwaitTerminal(s, n) ==> a@ == ActionModel::AwaitTerminal(s@, n as nat),
        a matches reconcile::Action::ReadRecord(s) ==> a@ == ActionModel::ReadRecord(s@),
        a matches reconcile::Action::DeletePod(s) ==> a@ == ActionModel::DeletePod(s@),
        a matches reconcile::Action::Count(c) ==> a@ == (ActionModel::Count {
            metric: c.metric@,
            rack: c.rack@,
            verdict: c.verdict@,
        }),
        a matches reconcile::Action::Patch(v) ==> a@ == ActionModel::Patch(v@),
{
}

/// The model of a stage is of the same kind as the stage, and names the same
/// pods.
pub proof fn law_model_of_a_stage(s: reconcile::Stage)
    ensures
        s is CreatingServer ==> s@ == StageModel::CreatingServer,
        s matches reconcile::Stage::AwaitingIp(a) ==> s@ == StageModel::AwaitingIp(a@),
        s matches reconcile::Stage::CreatingClient(a) ==> s@ == StageModel::CreatingClient(a@),
        s matches reconcile::Stage::Running(a, b) ==> s@ == StageModel::Running(a@, b@),
        s matches reconcile::Stage::Reading(a, b) ==> s@ == StageModel::Reading(a@, b@),
        s is Finished ==> s@ == StageModel::Finished,
{
}

/// The model of a verdict is of the same kind as the verdict, with the same
/// figures or the same reason.
pub proof fn law_model_of_a_verdict(v: annotations::Verdict)
    ensures
        v is Timeout ==> v@ == VerdictModel::Timeout,
        v matches annotations::Verdict::Fail(s) ==> v@ == VerdictModel::Fail(s@),
        v matches annotations::Verdict::Passed(f) ==> (v@ matches VerdictModel::Passed(m) && m.device == f.device@
            && m.bw_avg == text::opt_text(f.bw_avg) && m.bw_peak == text::opt_text(f.bw_peak) && m.msg_rate
            == text::opt_text(f.msg_rate)),
{
}

/// The models of what to do after a look are of the same kind as what they
/// are models of.
pub proof fn law_models_of_waits(w: pods::WaitNext, a: pods::IpNext, n: NodeView)
    ensures
        w is Again ==> w@ == WaitModel::Again,
        w matches pods::WaitNext::Over(p) ==> w@ == WaitModel::Over(p),
        w matches pods::WaitNext::Broken(s) ==> w@ == WaitModel::Broken(s@),
        a is Again ==> a@ == IpModel::Again,
        a matches pods::IpNext::Ready(ip) ==> a@ == IpModel::Ready(ip@),
        a matches pods::IpNext::GiveUp(s) ==> a@ == IpModel::GiveUp(s@),
        n@.name == n.name@,
        n@.rack == n.rack@,
        n@.last_at == text::opt_text(n.last_at),
{
}


// ---------------------------------------------------------------------
// Plans
// ---------------------------------------------------------------------

/// The nodes that a plan uses are nodes of its rack that can be probed.
pub proof fn law_plans_use_fit_nodes(nodes: Seq<NodeObject>, cutoff: Seq<char>, plans: Seq<reconcile::Plan>, i: int)
    requires
        reconcile::are_plans(nodes, cutoff, plans),
        0 <= i < plans.len(),
    ensures
        match plans[i].target {
            Target::Pair(a, b) => {
                &&& pair::eligible_of(nodes).contains(a@)
                &&& pair::eligible_of(nodes).contains(b@)
                &&& a@.rack == plans[i].rack@
                &&& b@.rack == plans[i].rack@
            },
            Target::Loopback(n) => {
                &&& pair::eligible_of(nodes).contains(n@)
                &&& n@.rack == plans[i].rack@
            },
        },
{
    let (racks, history) = choose|racks: TextMap<Vec<NodeView>>, history: TextMap<String>|
        {
            &&& textmap::increasing(racks.seq())
            &&& pair::group_models(racks) == pair::racks_of(pair::eligible_of(nodes))
            &&& textmap::text_values(history) == pair::loopback_times(nodes)
            &&& plans == #[trigger] reconcile::plans_of(racks.seq(), history, cutoff)
        };
    match plans[i].target {
        Target::Pair(a, b) => {
            reconcile::law_probe_stays_in_rack(nodes, racks, history, cutoff, i, a);
            reconcile::law_probe_stays_in_rack(nodes, racks, history, cutoff, i, b);
        },
        Target::Loopback(n) => {
            reconcile::law_probe_stays_in_rack(nodes, racks, history, cutoff, i, n);
        },
    }
}

proof fn lemma_filter_once(all: Seq<pair::NodeModel>, keep: spec_fn(pair::NodeModel) -> bool)
    requires
        all.no_duplicates(),
    ensures
        all.filter(keep).no_duplicates(),
    decreases all.len(),
{
    if all.len() == 0 {
        assert(all.filter(keep) =~= Seq::empty()) by {
            reveal(Seq::filter);
        }
    } else {
        let front = all.drop_last();
        let last = all.last();
        let head = front.filter(keep);
        lemma_filter_once(front, keep);
        assert(all =~= front.push(last));
        sorting::lemma_filter_push(front, last, keep);
        assert forall|i: int| 0 <= i < head.len() implies head[i] != last by {
            assert(head.contains(head[i]));
            sorting::lemma_filter_member(front, keep, head[i]);
            let k = choose|k: int| 0 <= k < front.len() && front[k] == head[i];
            assert(all[k] == head[i] && all[all.len() - 1] == last);
        }
    }
}

/// Where no two nodes that can be probed have the same name, the two nodes of
/// a pair are different nodes.
pub proof fn law_pair_is_of_two_nodes(nodes: Seq<NodeObject>, cutoff: Seq<char>, plans: Seq<reconcile::Plan>, i: int)
    requires
        reconcile::are_plans(nodes, cutoff, plans),
        0 <= i < plans.len(),
        forall|j: int, k: int|
            0 <= j < k < pair::eligible_of(nodes).len() ==> (#[trigger] pair::eligible_of(nodes)[j]).name != (
            #[trigger] pair::eligible_of(nodes)[k]).name,
    ensures
        plans[i].target matches Target::Pair(a, b) ==> a.name@ != b.name@,
{
    let (racks, history) = choose|racks: TextMap<Vec<NodeView>>, history: TextMap<String>|
        {
            &&& textmap::increasing(racks.seq())
            &&& pair::group_models(racks) == pair::racks_of(pair::eligible_of(nodes))
            &&& textmap::text_values(history) == pair::loopback_times(nodes)
            &&& plans == #[trigger] reconcile::plans_of(racks.seq(), history, cutoff)
        };
    let all = pair::eligible_of(nodes);
    law_plans_use_fit_nodes(nodes, cutoff, plans, i);
    if let Target::Pair(a, b) = plans[i].target {
        let s = racks.seq();
        let k = law_plans_are_due(s, history, cutoff, i);
        let rack = s[k].0@;
        let members = s[k].1@;
        let models = pair::node_models(members);
        textmap::lemma_map_at(s, k);
        assert(racks@[rack] == s[k].1);
        assert(pair::group_models(racks).contains_key(rack));
        assert(pair::group_models(racks)[rack] == models);
        let keep = |x: pair::NodeModel| x.rack == rack;
        let own = pair::rack_members(all, rack);
        assert(own == all.filter(keep));
        assert(all.no_duplicates()) by {
            assert forall|j: int, h: int| 0 <= j < all.len() && 0 <= h < all.len() && j != h implies all[j]
                != all[h] by {
                if j < h {
                    assert(all[j].name != all[h].name);
                } else {
                    assert(all[h].name != all[j].name);
                }
            }
        }
        lemma_filter_once(all, keep);
        sorting::lemma_arranged_no_duplicates(own, pair::name_before());
        assert(models.no_duplicates());
        assert(members.no_duplicates()) by {
            assert forall|j: int, h: int| 0 <= j < members.len() && 0 <= h < members.len() && j != h implies members[j]
                != members[h] by {
                assert(models[j] == members[j]@ && models[h] == members[h]@);
            }
        }
        let sorted = pair::by_age(members);
        sorting::lemma_arranged_same_elements(members, pair::older());
        sorting::lemma_arranged_no_duplicates(members, pair::older());
        assert(a == sorted[0] && b == sorted[1]);
        assert(sorted.contains(a) && sorted.contains(b));
        sorting::lemma_arranged_contains(members, pair::older(), a);
        sorting::lemma_arranged_contains(members, pair::older(), b);
        let p = choose|p: int| 0 <= p < members.len() && members[p] == a;
        let q = choose|q: int| 0 <= q < members.len() && members[q] == b;
        assert(models[p] == a@ && models[q] == b@);
        assert(a@ != b@);
        let x = choose|x: int| 0 <= x < all.len() && all[x] == a@;
        let y = choose|y: int| 0 <= y < all.len() && all[y] == b@;
        if x < y {
            assert(all[x].name != all[y].name);
        } else {
            assert(all[y].name != all[x].name);
        }
    }
}

/// A node that can be probed and never was is in a rack that gets a probe:
/// of a pair where it is not alone, and of the node by itself where it is.
pub proof fn law_new_node_gets_a_probe(
    nodes: Seq<NodeObject>,
    cutoff: Seq<char>,
    plans: Seq<reconcile::Plan>,
    n: pair::NodeModel,
)
    requires
        reconcile::are_plans(nodes, cutoff, plans),
        pair::eligible_of(nodes).contains(n),
        n.last_at is None,
        !pair::loopback_times(nodes).contains_key(n.name),
    ensures
        exists|i: int| 0 <= i < plans.len() && (#[trigger] plans[i]).rack@ == n.rack,
{
    let (racks, history) = choose|racks: TextMap<Vec<NodeView>>, history: TextMap<String>|
        {
            &&& textmap::increasing(racks.seq())
            &&& pair::group_models(racks) == pair::racks_of(pair::eligible_of(nodes))
            &&& textmap::text_values(history) == pair::loopback_times(nodes)
            &&& plans == #[trigger] reconcile::plans_of(racks.seq(), history, cutoff)
        };
    let all = pair::eligible_of(nodes);
    let rack = n.rack;
    let at = choose|k: int| 0 <= k < all.len() && all[k] == n;
    assert(all[at].rack == rack);
    assert(pair::has_rack(all, rack));
    law_racks_of_nodes(all, rack, n, 0, 0);
    assert(pair::racks_of(all).contains_key(rack));
    assert(pair::group_models(racks).contains_key(rack));
    assert(racks@.contains_key(rack));
    let s = racks.seq();
    let k = choose|k: int| textmap::key_at(s, rack, k);
    textmap::lemma_map_at(s, k);
    let members = s[k].1@;
    let models = pair::node_models(members);
    assert(racks@[rack] == s[k].1);
    assert(pair::group_models(racks)[rack] == models);
    assert(models.contains(n));
    let m = choose|m: int| 0 <= m < models.len() && models[m] == n;
    assert(members[m]@ == n);
    law_due_racks_are_planned(s, history, cutoff, k);
    if members.len() >= 2 {
        assert(!pair::is_fresh(members[m], cutoff));
        pair::law_stale_rack_is_probed(members, cutoff, m);
        let pr = pair::next_pair(members, cutoff)->0;
        let p = reconcile::Plan { rack: s[k].0, target: Target::Pair(pr.0, pr.1) };
        assert(plans.contains(p));
        let i = choose|i: int| 0 <= i < plans.len() && plans[i] == p;
        assert(plans[i].rack@ == rack);
    } else {
        assert(m == 0 && members.len() == 1);
        assert(!textmap::text_values(history).contains_key(n.name));
        assert(!history@.contains_key(n.name));
        assert(pair::next_loopback(members, history, cutoff) == Some(members[0]));
        let p = reconcile::Plan { rack: s[k].0, target: Target::Loopback(members[0]) };
        assert(plans.contains(p));
        let i = choose|i: int| 0 <= i < plans.len() && plans[i] == p;
        assert(plans[i].rack@ == rack);
    }
}


} // verus!
