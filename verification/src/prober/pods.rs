//! The pods of a probe.
//!
//! A probe pod runs on the host's network, so that the server's address is
//! the node's and no service is needed; as root, so that the two
//! capabilities it adds take effect; and with `/dev/infiniband` of the host,
//! so that it can open the RDMA devices.

use super::Resolved;
use crate::number;
use crate::text;
use crate::time;
use vstd::prelude::*;

verus! {

pub const APP_LABEL: &'static str = "accelrd-probe";

pub const ROLE_LABEL: &'static str = "accel-test.lunnova.dev/role";

pub const RACK_LABEL: &'static str = "accel-test.lunnova.dev/rack";

pub const PAIR_LABEL: &'static str = "accel-test.lunnova.dev/pair";

pub const APP_LABEL_KEY: &'static str = "app.kubernetes.io/name";

/// The side of a probe that a pod takes.
#[derive(Debug, Clone, Copy, PartialEq, Eq, Structural)]
pub enum Role {
    Server,
    Client,
}

impl Role {
    /// The side's name.
    pub open spec fn name(self) -> Seq<char> {
        match self {
            Role::Server => "server"@,
            Role::Client => "client"@,
        }
    }

    /// The side's name.
    pub fn slug(&self) -> (r: &'static str)
        ensures
            r@ == self.name(),
    {
        match self {
            Role::Server => "server",
            Role::Client => "client",
        }
    }
}

/// What a pod is made from.
pub struct PodSpec<'a> {
    pub role: Role,
    pub node_name: &'a str,
    pub partner_node: &'a str,
    pub partner_ip: Option<&'a str>,
    pub rack: &'a str,
    pub pair_id: &'a str,
    pub args: &'a Resolved,
}

/// The value of an environment variable of a container.
#[derive(Debug)]
pub enum EnvValue {
    /// The text itself.
    Literal(String),
    /// A field of the pod, by its path.
    Field(&'static str),
}

/// An environment variable of a container.
#[derive(Debug)]
pub struct EnvVar {
    pub name: &'static str,
    pub value: EnvValue,
}

/// A directory of the host in the container.
#[derive(Debug, Clone, Copy)]
pub struct Mount {
    pub name: &'static str,
    /// The path, on the host and in the container.
    pub path: &'static str,
    pub read_only: bool,
    /// The host's path must be a directory.
    pub must_be_directory: bool,
}

/// A probe pod.
#[derive(Debug)]
pub struct PodManifest {
    pub generate_name: String,
    pub namespace: String,
    pub labels: Vec<(&'static str, String)>,
    pub node_name: String,
    pub restart_policy: &'static str,
    pub host_network: bool,
    pub dns_policy: &'static str,
    pub automount_service_account_token: bool,
    /// The keys of the tolerated taints, which are tolerated with any value
    /// where they keep pods from being scheduled.
    pub tolerated_taints: Vec<&'static str>,
    pub container_name: &'static str,
    pub image: String,
    pub image_pull_policy: &'static str,
    pub args: Vec<String>,
    pub env: Vec<EnvVar>,
    pub run_as_user: i64,
    pub allow_privilege_escalation: bool,
    pub read_only_root_filesystem: bool,
    pub drop_capabilities: Vec<&'static str>,
    pub add_capabilities: Vec<&'static str>,
    pub seccomp_profile: &'static str,
    pub cpu_request: &'static str,
    pub memory_request: &'static str,
    pub cpu_limit: &'static str,
    pub memory_limit: &'static str,
    pub mounts: Vec<Mount>,
}

/// The model of the value of an environment variable.
pub enum EnvValueModel {
    Literal(Seq<char>),
    Field(Seq<char>),
}

/// The model of an environment variable.
pub type EnvModel = (Seq<char>, EnvValueModel);

/// The model of a directory of the host.
#[verifier::ext_equal]
pub struct MountModel {
    pub name: Seq<char>,
    pub path: Seq<char>,
    pub read_only: bool,
    pub must_be_directory: bool,
}

/// The model of a probe pod.
#[verifier::ext_equal]
pub struct PodModel {
    pub generate_name: Seq<char>,
    pub namespace: Seq<char>,
    pub labels: Seq<(Seq<char>, Seq<char>)>,
    pub node_name: Seq<char>,
    pub restart_policy: Seq<char>,
    pub host_network: bool,
    pub dns_policy: Seq<char>,
    pub automount_service_account_token: bool,
    pub tolerated_taints: Seq<Seq<char>>,
    pub container_name: Seq<char>,
    pub image: Seq<char>,
    pub image_pull_policy: Seq<char>,
    pub args: Seq<Seq<char>>,
    pub env: Seq<EnvModel>,
    pub run_as_user: int,
    pub allow_privilege_escalation: bool,
    pub read_only_root_filesystem: bool,
    pub drop_capabilities: Seq<Seq<char>>,
    pub add_capabilities: Seq<Seq<char>>,
    pub seccomp_profile: Seq<char>,
    pub cpu_request: Seq<char>,
    pub memory_request: Seq<char>,
    pub cpu_limit: Seq<char>,
    pub memory_limit: Seq<char>,
    pub mounts: Seq<MountModel>,
}

impl View for EnvVar {
    type V = EnvModel;

    open spec fn view(&self) -> EnvModel {
        (
            self.name@,
            match self.value {
                EnvValue::Literal(s) => EnvValueModel::Literal(s@),
                EnvValue::Field(s) => EnvValueModel::Field(s@),
            },
        )
    }
}

/// The models of environment variables.
pub open spec fn env_models(v: Seq<EnvVar>) -> Seq<EnvModel> {
    v.map_values(|e: EnvVar| e@)
}

/// The texts of fixed strings.
pub open spec fn fixed_texts(v: Seq<&'static str>) -> Seq<Seq<char>> {
    v.map_values(|s: &'static str| s@)
}

impl View for Mount {
    type V = MountModel;

    open spec fn view(&self) -> MountModel {
        MountModel {
            name: self.name@,
            path: self.path@,
            read_only: self.read_only,
            must_be_directory: self.must_be_directory,
        }
    }
}

impl View for PodManifest {
    type V = PodModel;

    open spec fn view(&self) -> PodModel {
        PodModel {
            generate_name: self.generate_name@,
            namespace: self.namespace@,
            labels: self.labels@.map_values(|l: (&'static str, String)| (l.0@, l.1@)),
            node_name: self.node_name@,
            restart_policy: self.restart_policy@,
            host_network: self.host_network,
            dns_policy: self.dns_policy@,
            automount_service_account_token: self.automount_service_account_token,
            tolerated_taints: fixed_texts(self.tolerated_taints@),
            container_name: self.container_name@,
            image: self.image@,
            image_pull_policy: self.image_pull_policy@,
            args: text::texts(self.args@),
            env: env_models(self.env@),
            run_as_user: self.run_as_user as int,
            allow_privilege_escalation: self.allow_privilege_escalation,
            read_only_root_filesystem: self.read_only_root_filesystem,
            drop_capabilities: fixed_texts(self.drop_capabilities@),
            add_capabilities: fixed_texts(self.add_capabilities@),
            seccomp_profile: self.seccomp_profile@,
            cpu_request: self.cpu_request@,
            memory_request: self.memory_request@,
            cpu_limit: self.cpu_limit@,
            memory_limit: self.memory_limit@,
            mounts: self.mounts@.map_values(|m: Mount| m@),
        }
    }
}

/// The environment of a pod. A client learns the server's address.
pub open spec fn env_of(
    role: Role,
    partner_node: Seq<char>,
    partner_ip: Option<Seq<char>>,
    rack: Seq<char>,
    args: Resolved,
) -> Seq<EnvModel> {
    let common = seq![
        (
            "ACCELRD_PROBE_DURATION_SECS"@,
            EnvValueModel::Literal(number::decimal(args.test_duration_secs as nat)),
        ),
        ("ACCELRD_PROBE_SRC_RACK"@, EnvValueModel::Literal(rack)),
        ("ACCELRD_PROBE_PARTNER_NODE"@, EnvValueModel::Literal(partner_node)),
        ("ACCELRD_OTLP_ENDPOINT"@, EnvValueModel::Literal(args.otlp_endpoint@)),
        ("OTEL_SERVICE_NAME"@, EnvValueModel::Literal("accelrd-probe"@)),
        ("RUST_LOG"@, EnvValueModel::Literal("info,opentelemetry=warn,reqwest=error"@)),
        ("NODE_NAME"@, EnvValueModel::Field("spec.nodeName"@)),
        ("POD_NAME"@, EnvValueModel::Field("metadata.name"@)),
        ("POD_UID"@, EnvValueModel::Field("metadata.uid"@)),
        ("POD_NAMESPACE"@, EnvValueModel::Field("metadata.namespace"@)),
        ("CONTAINER_NAME"@, EnvValueModel::Literal("probe"@)),
    ];
    match (role, partner_ip) {
        (Role::Client, Some(ip)) => common.push(("ACCELRD_PROBE_SERVER"@, EnvValueModel::Literal(ip))),
        _ => common,
    }
}

/// The pod for one side of a probe.
pub open spec fn manifest_of(
    role: Role,
    node_name: Seq<char>,
    partner_node: Seq<char>,
    partner_ip: Option<Seq<char>>,
    rack: Seq<char>,
    pair_id: Seq<char>,
    args: Resolved,
    image: Seq<char>,
) -> PodModel {
    PodModel {
        generate_name: "accelrd-probe-"@ + role.name() + "-"@,
        namespace: args.namespace@,
        labels: seq![
            ("app.kubernetes.io/name"@, "accelrd-probe"@),
            ("app.kubernetes.io/component"@, "probe"@),
            ("app.kubernetes.io/managed-by"@, "accelrd-prober"@),
            ("accel-test.lunnova.dev/role"@, role.name()),
            ("accel-test.lunnova.dev/rack"@, rack),
            ("accel-test.lunnova.dev/pair"@, pair_id),
        ],
        node_name,
        restart_policy: "Never"@,
        host_network: true,
        dns_policy: "ClusterFirstWithHostNet"@,
        automount_service_account_token: false,
        tolerated_taints: seq!["nvidia.com/gpu"@, "amd.com/gpu"@, "accelerator"@],
        container_name: "probe"@,
        image,
        image_pull_policy: "IfNotPresent"@,
        args: seq!["probe"@, "--mode"@, role.name()],
        env: env_of(role, partner_node, partner_ip, rack, args),
        run_as_user: 0,
        allow_privilege_escalation: false,
        read_only_root_filesystem: true,
        drop_capabilities: seq!["ALL"@],
        add_capabilities: seq!["IPC_LOCK"@, "NET_RAW"@],
        seccomp_profile: "RuntimeDefault"@,
        cpu_request: "100m"@,
        memory_request: "64Mi"@,
        cpu_limit: "500m"@,
        memory_limit: "256Mi"@,
        mounts: seq![
            MountModel {
                name: "dev-infiniband"@,
                path: "/dev/infiniband"@,
                read_only: false,
                must_be_directory: false,
            },
            MountModel { name: "sys"@, path: "/sys"@, read_only: true, must_be_directory: true },
        ],
    }
}

/// The pod that a specification makes, where there is an image for it.
pub open spec fn pod_of(s: PodSpec) -> Option<PodModel> {
    match s.args.probe_image {
        Some(image) => Some(
            manifest_of(
                s.role,
                s.node_name@,
                s.partner_node@,
                text::opt_str(s.partner_ip),
                s.rack@,
                s.pair_id@,
                *s.args,
                image@,
            ),
        ),
        None => None,
    }
}

fn push_literal(env: &mut Vec<EnvVar>, name: &'static str, value: &str)
    ensures
        env_models(final(env)@) == env_models(old(env)@).push((name@, EnvValueModel::Literal(value@))),
{
    let ghost before = env_models(env@);
    env.push(EnvVar { name, value: EnvValue::Literal(value.to_owned()) });
    assert(env_models(env@) =~= before.push((name@, EnvValueModel::Literal(value@))));
}

fn push_field(env: &mut Vec<EnvVar>, name: &'static str, path: &'static str)
    ensures
        env_models(final(env)@) == env_models(old(env)@).push((name@, EnvValueModel::Field(path@))),
{
    let ghost before = env_models(env@);
    env.push(EnvVar { name, value: EnvValue::Field(path) });
    assert(env_models(env@) =~= before.push((name@, EnvValueModel::Field(path@))));
}

fn build_env(s: &PodSpec) -> (r: Vec<EnvVar>)
    ensures
        env_models(r@) == env_of(
            s.role,
            s.partner_node@,
            text::opt_str(s.partner_ip),
            s.rack@,
            *s.args,
        ),
{
    let mut env: Vec<EnvVar> = Vec::new();
    assert(env_models(env@) =~= Seq::empty());
    push_literal(&mut env, "ACCELRD_PROBE_DURATION_SECS", number::dec(s.args.test_duration_secs).as_str());
    push_literal(&mut env, "ACCELRD_PROBE_SRC_RACK", s.rack);
    push_literal(&mut env, "ACCELRD_PROBE_PARTNER_NODE", s.partner_node);
    push_literal(&mut env, "ACCELRD_OTLP_ENDPOINT", s.args.otlp_endpoint.as_str());
    push_literal(&mut env, "OTEL_SERVICE_NAME", "accelrd-probe");
    push_literal(&mut env, "RUST_LOG", "info,opentelemetry=warn,reqwest=error");
    push_field(&mut env, "NODE_NAME", "spec.nodeName");
    push_field(&mut env, "POD_NAME", "metadata.name");
    push_field(&mut env, "POD_UID", "metadata.uid");
    push_field(&mut env, "POD_NAMESPACE", "metadata.namespace");
    push_literal(&mut env, "CONTAINER_NAME", "probe");
    match (s.role, s.partner_ip) {
        (Role::Client, Some(ip)) => {
            push_literal(&mut env, "ACCELRD_PROBE_SERVER", ip);
        },
        _ => {},
    }
    assert(env_models(env@) =~= env_of(
        s.role,
        s.partner_node@,
        text::opt_str(s.partner_ip),
        s.rack@,
        *s.args,
    ));
    env
}

fn build_labels(s: &PodSpec) -> (r: Vec<(&'static str, String)>)
    ensures
        r@.map_values(|l: (&'static str, String)| (l.0@, l.1@)) == seq![
            ("app.kubernetes.io/name"@, "accelrd-probe"@),
            ("app.kubernetes.io/component"@, "probe"@),
            ("app.kubernetes.io/managed-by"@, "accelrd-prober"@),
            ("accel-test.lunnova.dev/role"@, s.role.name()),
            ("accel-test.lunnova.dev/rack"@, s.rack@),
            ("accel-test.lunnova.dev/pair"@, s.pair_id@),
        ],
{
    let mut labels: Vec<(&'static str, String)> = Vec::new();
    labels.push(("app.kubernetes.io/name", "accelrd-probe".to_owned()));
    labels.push(("app.kubernetes.io/component", "probe".to_owned()));
    labels.push(("app.kubernetes.io/managed-by", "accelrd-prober".to_owned()));
    labels.push(("accel-test.lunnova.dev/role", s.role.slug().to_owned()));
    labels.push(("accel-test.lunnova.dev/rack", s.rack.to_owned()));
    labels.push(("accel-test.lunnova.dev/pair", s.pair_id.to_owned()));
    assert(labels@.map_values(|l: (&'static str, String)| (l.0@, l.1@)) =~= seq![
        ("app.kubernetes.io/name"@, "accelrd-probe"@),
        ("app.kubernetes.io/component"@, "probe"@),
        ("app.kubernetes.io/managed-by"@, "accelrd-prober"@),
        ("accel-test.lunnova.dev/role"@, s.role.name()),
        ("accel-test.lunnova.dev/rack"@, s.rack@),
        ("accel-test.lunnova.dev/pair"@, s.pair_id@),
    ]);
    labels
}

/// There is no image to make a pod of.
#[derive(Debug, Clone, Copy, PartialEq, Eq, Structural)]
pub struct NoImage;

impl NoImage {
    /// The error as shown to people.
    pub fn message(&self) -> (r: &'static str)
        ensures
            r@ == "probe_image (set ACCELRD_PROBER_PROBE_IMAGE)"@,
    {
        "probe_image (set ACCELRD_PROBER_PROBE_IMAGE)"
    }
}

/// The pod that `s` makes.
pub fn build_pod(s: &PodSpec) -> (r: Result<PodManifest, NoImage>)
    ensures
        match r {
            Ok(p) => pod_of(*s) == Some(p@),
            Err(_) => pod_of(*s) is None,
        },
{
    let image = match &s.args.probe_image {
        Some(i) => i.clone(),
        None => {
            return Err(NoImage);
        },
    };
    let role = s.role.slug();
    let mut args: Vec<String> = Vec::new();
    args.push("probe".to_owned());
    args.push("--mode".to_owned());
    args.push(role.to_owned());
    let mut tolerated_taints: Vec<&'static str> = Vec::new();
    tolerated_taints.push("nvidia.com/gpu");
    tolerated_taints.push("amd.com/gpu");
    tolerated_taints.push("accelerator");
    let mut drop_capabilities: Vec<&'static str> = Vec::new();
    drop_capabilities.push("ALL");
    let mut add_capabilities: Vec<&'static str> = Vec::new();
    add_capabilities.push("IPC_LOCK");
    add_capabilities.push("NET_RAW");
    let mut mounts: Vec<Mount> = Vec::new();
    mounts.push(
        Mount {
            name: "dev-infiniband",
            path: "/dev/infiniband",
            read_only: false,
            must_be_directory: false,
        },
    );
    mounts.push(Mount { name: "sys", path: "/sys", read_only: true, must_be_directory: true });
    let pod = PodManifest {
        generate_name: text::join3("accelrd-probe-", role, "-"),
        namespace: s.args.namespace.clone(),
        labels: build_labels(s),
        node_name: s.node_name.to_owned(),
        restart_policy: "Never",
        host_network: true,
        dns_policy: "ClusterFirstWithHostNet",
        automount_service_account_token: false,
        tolerated_taints,
        container_name: "probe",
        image,
        image_pull_policy: "IfNotPresent",
        args,
        env: build_env(s),
        run_as_user: 0,
        allow_privilege_escalation: false,
        read_only_root_filesystem: true,
        drop_capabilities,
        add_capabilities,
        seccomp_profile: "RuntimeDefault",
        cpu_request: "100m",
        memory_request: "64Mi",
        cpu_limit: "500m",
        memory_limit: "256Mi",
        mounts,
    };
    proof {
        let want = pod_of(*s)->0;
        assert(pod@.args =~= want.args);
        assert(pod@.tolerated_taints =~= want.tolerated_taints);
        assert(pod@.drop_capabilities =~= want.drop_capabilities);
        assert(pod@.add_capabilities =~= want.add_capabilities);
        assert(pod@.mounts =~= want.mounts);
        assert(pod@ =~= want);
    }
    Ok(pod)
}

// ---------------------------------------------------------------------
// Waiting for a pod
// ---------------------------------------------------------------------

/// How a pod's run ended, as far as the prober waited.
#[derive(Debug, Clone, Copy, PartialEq, Eq, Structural)]
pub enum Phase {
    Succeeded,
    Failed,
    Timeout,
}

/// What a look at a pod came to.
pub enum PodLook {
    /// The deadline has passed; the pod was not looked at.
    Late,
    /// The pod's phase, where it has one.
    Seen(Option<String>),
    /// The pod is gone.
    Gone,
    /// The look failed, for a reason that may pass.
    Failed,
}

/// What to do after a look at a pod.
#[derive(Debug)]
pub enum WaitNext {
    /// Look again after the interval.
    Again,
    /// The wait is over.
    Over(Phase),
    /// The wait failed, for the given reason.
    Broken(String),
}

/// The model of what to do after a look.
pub enum WaitModel {
    Again,
    Over(Phase),
    Broken(Seq<char>),
}

impl View for WaitNext {
    type V = WaitModel;

    open spec fn view(&self) -> WaitModel {
        match self {
            WaitNext::Again => WaitModel::Again,
            WaitNext::Over(p) => WaitModel::Over(*p),
            WaitNext::Broken(s) => WaitModel::Broken(s@),
        }
    }
}

/// What to do after a look at the pod `name`, whose end is waited for.
pub open spec fn after_look(name: Seq<char>, look: PodLook) -> WaitModel {
    match look {
        PodLook::Late => WaitModel::Over(Phase::Timeout),
        PodLook::Seen(Some(p)) => if p@ == "Succeeded"@ {
            WaitModel::Over(Phase::Succeeded)
        } else if p@ == "Failed"@ {
            WaitModel::Over(Phase::Failed)
        } else {
            WaitModel::Again
        },
        PodLook::Seen(None) => WaitModel::Again,
        PodLook::Gone => WaitModel::Broken("pod "@ + name + " disappeared during probe"@),
        PodLook::Failed => WaitModel::Again,
    }
}

/// What to do after a look at the pod `name`, whose end is waited for. A
/// look is taken every two seconds.
pub fn await_terminal(name: &str, look: PodLook) -> (r: WaitNext)
    ensures
        r@ == after_look(name@, look),
{
    proof {
        reveal_strlit("Succeeded");
        reveal_strlit("Failed");
        assert("Succeeded"@.len() == 9);
        assert("Failed"@.len() == 6);
    }
    match look {
        PodLook::Late => WaitNext::Over(Phase::Timeout),
        PodLook::Seen(Some(p)) => if text::same(p.as_str(), "Succeeded") {
            WaitNext::Over(Phase::Succeeded)
        } else if text::same(p.as_str(), "Failed") {
            WaitNext::Over(Phase::Failed)
        } else {
            WaitNext::Again
        },
        PodLook::Seen(None) => WaitNext::Again,
        PodLook::Gone => WaitNext::Broken(text::join3("pod ", name, " disappeared during probe")),
        PodLook::Failed => WaitNext::Again,
    }
}

/// What a look at the address of a pod came to.
pub enum IpLook {
    /// The deadline has passed; the pod was not looked at.
    Late,
    /// The pod's address, where it has one.
    Seen(Option<String>),
    /// The look failed, for a reason that may pass.
    Failed,
}

/// What to do after a look at the address of a pod.
#[derive(Debug)]
pub enum IpNext {
    /// Look again after the interval.
    Again,
    /// The pod has the address.
    Ready(String),
    /// The pod got no address in time.
    GiveUp(String),
}

/// The model of what to do after a look at an address.
pub enum IpModel {
    Again,
    Ready(Seq<char>),
    GiveUp(Seq<char>),
}

impl View for IpNext {
    type V = IpModel;

    open spec fn view(&self) -> IpModel {
        match self {
            IpNext::Again => IpModel::Again,
            IpNext::Ready(ip) => IpModel::Ready(ip@),
            IpNext::GiveUp(s) => IpModel::GiveUp(s@),
        }
    }
}

/// What to do after a look at the address of the pod `name`.
pub open spec fn after_ip_look(name: Seq<char>, look: IpLook) -> IpModel {
    match look {
        IpLook::Late => IpModel::GiveUp("pod "@ + name + " got no IP before timeout"@),
        IpLook::Seen(Some(ip)) => if ip@.len() > 0 {
            IpModel::Ready(ip@)
        } else {
            IpModel::Again
        },
        IpLook::Seen(None) => IpModel::Again,
        IpLook::Failed => IpModel::Again,
    }
}

/// What to do after a look at the address of the pod `name`.
pub fn await_pod_ip(name: &str, look: IpLook) -> (r: IpNext)
    ensures
        r@ == after_ip_look(name@, look),
{
    match look {
        IpLook::Late => IpNext::GiveUp(text::join3("pod ", name, " got no IP before timeout")),
        IpLook::Seen(Some(ip)) => if text::is_empty(ip.as_str()) {
            IpNext::Again
        } else {
            IpNext::Ready(ip)
        },
        IpLook::Seen(None) => IpNext::Again,
        IpLook::Failed => IpNext::Again,
    }
}

// ---------------------------------------------------------------------
// Leftovers
// ---------------------------------------------------------------------

/// A pod in the prober's namespace: its name, and when it was made, in
/// seconds since the Unix epoch.
pub struct PodObject {
    pub name: Option<String>,
    pub created: Option<i64>,
}

/// The pod was made before the cutoff, by the stamps of the two.
pub open spec fn is_stale(p: PodObject, cutoff: Seq<char>) -> bool {
    match p.created {
        Some(t) => text::text_lt(time::stamp(t as int), cutoff),
        None => false,
    }
}

/// The second before which pods are leftovers, in the arithmetic of 64-bit
/// integers.
pub open spec fn orphan_cutoff(now: u64, max_age: u64) -> i64 {
    now.wrapping_sub(max_age) as i64
}

/// The names of the pods that were made before the cutoff.
pub open spec fn stale_names(pods: Seq<PodObject>, cutoff: Seq<char>) -> Seq<Seq<char>>
    decreases pods.len(),
{
    if pods.len() == 0 {
        Seq::empty()
    } else {
        let head = stale_names(pods.drop_last(), cutoff);
        let p = pods.last();
        match p.name {
            Some(name) => if is_stale(p, cutoff) {
                head.push(name@)
            } else {
                head
            },
            None => head,
        }
    }
}

/// The names of the probe pods that are older than `max_age` seconds at
/// `now`: what a prober that ended before its probes left behind.
pub fn cleanup_orphans(pods: &Vec<PodObject>, now: u64, max_age: u64) -> (r: Vec<String>)
    ensures
        text::texts(r@) == stale_names(pods@, time::stamp(orphan_cutoff(now, max_age) as int)),
{
    let limit: i64 = now.wrapping_sub(max_age) as i64;
    let cutoff = time::rfc3339_at(limit);
    let mut out: Vec<String> = Vec::new();
    assert(text::texts(out@) =~= Seq::empty());
    let mut i: usize = 0;
    while i < pods.len()
        invariant
            i <= pods@.len(),
            text::texts(out@) == stale_names(pods@.take(i as int), cutoff@),
        decreases pods@.len() - i,
    {
        proof {
            let t = pods@.take(i + 1);
            assert(t.drop_last() =~= pods@.take(i as int));
            assert(t.last() == pods@[i as int]);
        }
        let stale = match pods[i].created {
            Some(t) => text::less(time::rfc3339_at(t).as_str(), cutoff.as_str()),
            None => false,
        };
        match &pods[i].name {
            Some(name) => {
                if stale {
                    let ghost before = text::texts(out@);
                    out.push(name.clone());
                    assert(text::texts(out@) =~= before.push(name@));
                }
            },
            None => {},
        }
        i = i + 1;
    }
    assert(pods@.take(pods@.len() as int) =~= pods@);
    out
}

/// In the years 0000 to 9999 a pod counts as a leftover if and only if it is
/// older than the age.
pub proof fn law_stale_means_old(p: PodObject, now: u64, max_age: u64)
    requires
        p.created is Some,
        -62_167_219_200 <= p.created->0 < 253_402_300_800,
        max_age <= now < 253_402_300_800,
    ensures
        is_stale(p, time::stamp(orphan_cutoff(now, max_age) as int)) <==> p.created->0 < now - max_age,
{
    let t = p.created->0 as int;
    let c = now - max_age;
    assert(orphan_cutoff(now, max_age) == c);
    if t < c {
        time::law_stamps_sort_by_time(t, c);
    } else if t == c {
        text::lemma_text_lt_irreflexive(time::stamp(t));
    } else {
        time::law_stamps_sort_by_time(c, t);
        text::lemma_text_lt_asymmetric(time::stamp(c), time::stamp(t));
    }
}

} // verus!
