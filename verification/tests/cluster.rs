use accelrd::config::{env_string, env_u64, Args, Resolved};
use accelrd::exporter::{build_resource, signal_endpoint, Signal};
use accelrd::k8s::facts::{host_identity, node_name};
use accelrd::k8s::labeler::{
    after_patch, announce, apply, build_merge_patch, is_managed, labeler_mode, ApplyStep, LabelerMode, NodeMeta,
    PatchNext,
};
use accelrd::k8s::{enabled, looks_in_cluster};
use accelrd::textmap::TextMap;
use accelrd::topology::labels::LabelSet;

fn texts(pairs: &[(&str, &str)]) -> TextMap<String> {
    let mut m = TextMap::new();
    for (k, v) in pairs {
        m.insert(k.to_string(), v.to_string());
    }
    m
}

fn bare() -> Args {
    Args {
        otlp_endpoint: None,
        live_interval_secs: None,
        preflight_interval_secs: None,
        block: None,
        rack: None,
        service_name: None,
        node_name: None,
        once: false,
        no_k8s: false,
        no_lldp: false,
        lldp_timeout_secs: None,
    }
}

fn defaults() -> Resolved {
    bare().resolve(&TextMap::new())
}

#[test]
fn daemon_arguments_default() {
    let r = defaults();
    assert_eq!(r.otlp_endpoint, "http://127.0.0.1:4318");
    assert_eq!(r.live_interval_secs, 5);
    assert_eq!(r.preflight_interval_secs, 30);
    assert_eq!(r.service_name, "accelrd");
    assert_eq!(r.lldp_wait(), 60);
    assert_eq!(r.rack, None);
}

#[test]
fn daemon_arguments_from_the_environment() {
    let env = texts(&[("ACCELRD_RACK", "r7"), ("ACCELRD_LIVE_INTERVAL_SECS", "9"), ("ACCELRD_BLOCK", "")]);
    let mut args = bare();
    args.no_lldp = true;
    args.preflight_interval_secs = Some(1);
    let r = args.resolve(&env);
    assert_eq!(r.rack.as_deref(), Some("r7"));
    assert_eq!(r.live_interval_secs, 9);
    assert_eq!(r.preflight_interval_secs, 1);
    assert_eq!(r.block, None);
    assert_eq!(r.lldp_wait(), 0);
    assert_eq!(env_string(&env, "ACCELRD_BLOCK"), None);
    assert_eq!(env_u64(&env, "ACCELRD_RACK"), None);
}

#[test]
fn names_of_the_host() {
    let both = texts(&[("NODE_NAME", "n1"), ("HOSTNAME", "h1")]);
    assert_eq!(host_identity(&both, Some("k\n")), "n1");
    assert_eq!(host_identity(&texts(&[("NODE_NAME", ""), ("HOSTNAME", "h1")]), None), "h1");
    assert_eq!(host_identity(&TextMap::new(), Some(" k \n")), "k");
    assert_eq!(host_identity(&TextMap::new(), Some("\n")), "unknown");
    let mut r = defaults();
    r.node_name = Some("given".to_string());
    assert_eq!(node_name(&r, &both, None), "given");
}

#[test]
fn inside_a_cluster() {
    assert!(enabled(&defaults(), true, true));
    let mut r = defaults();
    r.no_k8s = true;
    assert!(!enabled(&r, true, true));
    assert!(!looks_in_cluster(false, false));
}

#[test]
fn owned_keys() {
    assert!(is_managed("accel.lunnova.dev/total-count"));
    assert!(is_managed("accel-ready.lunnova.dev/inference"));
    assert!(is_managed("accel-net.lunnova.dev/rdma"));
    assert!(!is_managed("accel-test.lunnova.dev/last-rack-at"));
    assert!(!is_managed("kubernetes.io/hostname"));
}

#[test]
fn the_patch_converges() {
    let current = texts(&[("accel.lunnova.dev/old", "1"), ("kubernetes.io/hostname", "n"), ("accel.lunnova.dev/kept", "0")]);
    let desired = LabelSet {
        labels: texts(&[("accel.lunnova.dev/kept", "2"), ("accel.lunnova.dev/new", "3")]),
        annotations: TextMap::new(),
    };
    let p = build_merge_patch(Some(&current), None, &desired);
    assert_eq!(p.labels.len(), 3);
    assert!(p.labels.get("accel.lunnova.dev/old").unwrap().is_null());
    assert_eq!(p.labels.get("accel.lunnova.dev/kept").unwrap().as_str(), Some("2"));
    assert_eq!(p.labels.get("accel.lunnova.dev/new").unwrap().as_str(), Some("3"));
    assert!(p.annotations.is_empty());
    let settled = build_merge_patch(Some(&desired.labels), None, &desired);
    assert!(settled.labels.iter().all(|(_, v)| !v.is_null()));
}

#[test]
fn patching_is_tried_three_times() {
    assert_eq!(after_patch(1, true), PatchNext::Done);
    assert_eq!(after_patch(1, false), PatchNext::Retry(400));
    assert_eq!(after_patch(2, false), PatchNext::Retry(800));
    assert_eq!(after_patch(3, false), PatchNext::GiveUp);
}

#[test]
fn the_labeler() {
    assert_eq!(labeler_mode(true, true), LabelerMode::Active);
    assert_eq!(labeler_mode(true, false), LabelerMode::Disabled);
    let mut announced = false;
    assert!(announce(&mut announced));
    assert!(!announce(&mut announced));
    let desired = LabelSet { labels: texts(&[("accel.lunnova.dev/a", "1")]), annotations: TextMap::new() };
    assert!(matches!(apply(None, &desired), ApplyStep::Skip));
    let meta = NodeMeta { labels: None, annotations: None };
    match apply(Some(meta), &desired) {
        ApplyStep::Send(p) => assert_eq!(p.labels.len(), 1),
        ApplyStep::Skip => panic!("skipped"),
    }
}

#[test]
fn where_telemetry_goes() {
    assert_eq!(signal_endpoint("http://h:4318//", Signal::Traces), "http://h:4318/v1/traces");
    assert_eq!(signal_endpoint("http://h:4318", Signal::Logs), "http://h:4318/v1/logs");
    assert_eq!(Signal::Metrics.build_error(), "build metrics exporter");
    let r = build_resource("svc", "0.1.0", "node", "x86_64", "linux");
    let keys: Vec<&str> = r.iter().map(|a| a.key.as_str()).collect();
    assert_eq!(
        keys,
        vec![
            "service.name",
            "service.version",
            "host.name",
            "host.arch",
            "os.type",
            "telemetry.sdk.name",
            "telemetry.sdk.language"
        ]
    );
}
