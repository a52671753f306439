use accelrd::k8s::node::{ConditionObject, NodeObject};
use accelrd::prober::annotations::{build_body, Family, Figures, Verdict};
use accelrd::prober::pair::{
    eligible, group_by_rack, loopback_history, pick_loopback, pick_pair, NodeView,
};
use accelrd::prober::pods::{
    await_pod_ip, await_terminal, build_pod, cleanup_orphans, EnvValue, IpLook, IpNext, Phase, PodLook,
    PodObject, PodSpec, Role, WaitNext,
};
use accelrd::prober::reconcile::{
    orphan_age, pair_tag, pair_tag_at, plan, Action, Event, Plan, Probe, Stage, Target,
};
use accelrd::prober::results::{candidates, parse, ProbeRecord};
use accelrd::prober::{ProberArgs, Resolved, ANN_LAST_AT};
use accelrd::textmap::TextMap;
use std::collections::hash_map::DefaultHasher;
use std::hash::{Hash, Hasher};

fn nv(name: &str, last: Option<&str>) -> NodeView {
    NodeView { name: name.into(), last_at: last.map(str::to_string), rack: "r1".into() }
}

fn env(pairs: &[(&str, &str)]) -> TextMap<String> {
    let mut m = TextMap::new();
    for (k, v) in pairs {
        m.insert(k.to_string(), v.to_string());
    }
    m
}

fn bare() -> ProberArgs {
    ProberArgs {
        otlp_endpoint: None,
        service_name: None,
        cadence_secs: None,
        reconcile_interval_secs: None,
        probe_image: None,
        namespace: None,
        test_duration_secs: None,
        max_concurrent_pairs: None,
        once: false,
    }
}

fn with_image() -> Resolved {
    let mut args = bare();
    args.probe_image = Some("img:1".to_string());
    args.resolve(&env(&[]))
}

fn node(name: &str, rack: &str, ready: bool, rdma: bool, annotations: &[(&str, &str)]) -> NodeObject {
    let mut labels = env(&[("accel-topo.lunnova.dev/rack", rack)]);
    if rdma {
        labels.insert("accel-net.lunnova.dev/rdma".to_string(), "present".to_string());
    }
    NodeObject {
        name: Some(name.to_string()),
        labels: Some(labels),
        annotations: Some(env(annotations)),
        conditions: Some(vec![ConditionObject {
            kind: "Ready".to_string(),
            status: if ready { "True".to_string() } else { "False".to_string() },
            reason: None,
        }]),
        unschedulable: false,
        kubelet_version: None,
    }
}

fn record_of(line: &String) -> Option<ProbeRecord<f64>> {
    let v: serde_json::Value = serde_json::from_str(line).ok()?;
    let text = |k: &str| v.get(k).and_then(|x| x.as_str()).map(str::to_string);
    Some(ProbeRecord {
        side: text("side")?,
        ok: v.get("ok")?.as_bool()?,
        server: text("server"),
        device: text("device")?,
        bytes: v.get("bytes").and_then(|x| x.as_u64()),
        bw_peak_gbps: v.get("bw_peak_gbps").and_then(|x| x.as_f64()),
        bw_avg_gbps: v.get("bw_avg_gbps").and_then(|x| x.as_f64()),
        msg_rate_mpps: v.get("msg_rate_mpps").and_then(|x| x.as_f64()),
        duration_s: v.get("duration_s")?.as_f64()?,
        message: text("message"),
        src_rack: text("src_rack"),
        partner_node: text("partner_node"),
    })
}

#[test]
fn picks_oldest_two_when_all_unprobed() {
    let m = vec![nv("a", None), nv("b", None), nv("c", None)];
    let pair = pick_pair(&m, "1900-01-01T00:00:00Z").unwrap();
    assert_eq!(pair.0.name, "a");
    assert_eq!(pair.1.name, "b");
}

#[test]
fn prefers_unprobed_over_probed() {
    let m = vec![
        nv("a", Some("2026-05-07T00:00:00Z")),
        nv("b", Some("2026-05-07T00:00:00Z")),
        nv("c", None),
    ];
    let pair = pick_pair(&m, "1900-01-01T00:00:00Z").unwrap();
    assert_eq!(pair.0.name, "c");
    assert_eq!(pair.1.name, "a");
}

#[test]
fn picks_oldest_pair_when_all_probed() {
    let m = vec![
        nv("a", Some("2026-05-01T00:00:00Z")),
        nv("b", Some("2026-05-07T00:00:00Z")),
        nv("c", Some("2026-05-03T00:00:00Z")),
    ];
    let pair = pick_pair(&m, "2026-05-05T00:00:00Z").unwrap();
    assert_eq!(pair.0.name, "a");
    assert_eq!(pair.1.name, "c");
}

#[test]
fn returns_none_when_within_cadence() {
    let m = vec![nv("a", Some("2026-05-07T12:00:00Z")), nv("b", Some("2026-05-07T12:00:00Z"))];
    assert!(pick_pair(&m, "2026-05-07T11:00:00Z").is_none());
}

#[test]
fn returns_none_for_singleton_rack() {
    let m = vec![nv("a", None)];
    assert!(pick_pair(&m, "1900-01-01T00:00:00Z").is_none());
}

#[test]
fn parses_ok_record() {
    let log = "\
[2026-05-07T12:00:00Z INFO ] probe starting
{\"side\":\"client\",\"ok\":true,\"server\":\"10.0.0.5\",\"device\":\"mlx5_0\",\"bytes\":65536,\"bw_peak_gbps\":89.6,\"bw_avg_gbps\":89.4,\"msg_rate_mpps\":0.179,\"duration_s\":30.1,\"message\":null,\"src_rack\":\"r1\",\"partner_node\":\"node-b\"}
[2026-05-07T12:00:30Z INFO ] probe complete
";
    let r = parse(log, record_of).unwrap();
    assert!(r.ok);
    assert_eq!(r.device, "mlx5_0");
    assert!((r.bw_avg_gbps.unwrap() - 89.4).abs() < 1e-6);
}

#[test]
fn parses_failure_record() {
    let log = "{\"side\":\"client\",\"ok\":false,\"server\":\"10.0.0.5\",\"device\":\"mlx5_0\",\"bytes\":null,\"bw_peak_gbps\":null,\"bw_avg_gbps\":null,\"msg_rate_mpps\":null,\"duration_s\":1.0,\"message\":\"server unreachable\",\"src_rack\":null,\"partner_node\":null}";
    let r = parse(log, record_of).unwrap();
    assert!(!r.ok);
    assert_eq!(r.message.as_deref(), Some("server unreachable"));
}

#[test]
fn errors_when_no_json_line() {
    assert!(parse("nothing here\nor here\n", record_of).is_err());
}

#[test]
fn lines_that_look_like_records() {
    assert_eq!(candidates("a\n  {1} \n{2\n3}\n{}\n"), vec!["{1}", "{}"]);
    let e = parse("{not json}\n", record_of).unwrap_err();
    assert_eq!(e.message(), "parse probe stdout");
    let log = "{not json}\n{\"side\":\"server\",\"ok\":true,\"device\":\"d\",\"duration_s\":1.5}\n";
    assert_eq!(parse(log, record_of).unwrap().side, "server");
}

#[test]
fn stale_node_is_always_drawn_in() {
    let m = vec![nv("a", Some("2026-05-07T12:00:00Z")), nv("b", Some("2026-05-01T00:00:00Z"))];
    let pair = pick_pair(&m, "2026-05-07T11:00:00Z").unwrap();
    assert_eq!((pair.0.name.as_str(), pair.1.name.as_str()), ("b", "a"));
}

#[test]
fn a_pair_probed_at_the_cutoff_is_due() {
    let m = vec![nv("a", Some("2026-05-07T12:00:00Z")), nv("b", Some("2026-05-07T13:00:00Z"))];
    let pair = pick_pair(&m, "2026-05-07T12:00:00Z").unwrap();
    assert_eq!((pair.0.name.as_str(), pair.1.name.as_str()), ("a", "b"));
    assert!(pick_pair(&m, "2026-05-07T11:59:59Z").is_none());
}

#[test]
fn only_ready_nodes_with_rdma_are_eligible() {
    let nodes = vec![
        node("a", "r1", true, true, &[(ANN_LAST_AT, "2026-05-01T00:00:00Z")]),
        node("b", "r1", false, true, &[]),
        node("c", "r1", true, false, &[]),
        node("d", "r2", true, true, &[]),
    ];
    let e = eligible(&nodes);
    let names: Vec<&str> = e.iter().map(|n| n.name.as_str()).collect();
    assert_eq!(names, vec!["a", "d"]);
    assert_eq!(e[0].last_at.as_deref(), Some("2026-05-01T00:00:00Z"));
}

#[test]
fn racks_hold_their_nodes_by_name() {
    let mut other = nv("z", None);
    other.rack = "r0".to_string();
    let racks = group_by_rack(vec![nv("b", None), other, nv("a", None)]);
    let keys: Vec<&str> = racks.entries().iter().map(|e| e.0.as_str()).collect();
    assert_eq!(keys, vec!["r0", "r1"]);
    let names: Vec<&str> = racks.get("r1").unwrap().iter().map(|n| n.name.as_str()).collect();
    assert_eq!(names, vec!["a", "b"]);
}

#[test]
fn a_rack_of_one_is_probed_by_itself() {
    let nodes = vec![node("a", "r1", true, true, &[("accel-test.lunnova.dev/last-loopback-at", "2026-05-01T00:00:00Z")])];
    let history = loopback_history(&nodes);
    let members = vec![nv("a", None)];
    assert!(pick_loopback(&members, &history, "2026-04-30T23:59:59Z").is_none());
    assert_eq!(pick_loopback(&members, &history, "2026-05-01T00:00:00Z").unwrap().name, "a");
    assert_eq!(pick_loopback(&members, &history, "2026-05-01T00:00:01Z").unwrap().name, "a");
    assert!(pick_loopback(&[nv("a", None), nv("b", None)], &history, "2027-01-01T00:00:00Z").is_none());
    assert!(pick_pair(&members, "2027-01-01T00:00:00Z").is_none());
}

#[test]
fn plans_go_rack_by_rack() {
    let nodes = vec![
        node("c", "r2", true, true, &[]),
        node("b", "r1", true, true, &[]),
        node("a", "r1", true, true, &[]),
        node("d", "r3", true, true, &[(ANN_LAST_AT, "2027-01-01T00:00:00Z")]),
        node("e", "r3", true, true, &[(ANN_LAST_AT, "2027-01-01T00:00:00Z")]),
    ];
    let plans = plan(&nodes, "2026-05-07T00:00:00Z");
    assert_eq!(plans.len(), 2);
    assert_eq!(plans[0].rack, "r1");
    match &plans[0].target {
        Target::Pair(s, c) => assert_eq!((s.name.as_str(), c.name.as_str()), ("a", "b")),
        Target::Loopback(_) => panic!("loopback"),
    }
    assert_eq!(plans[1].rack, "r2");
    assert!(matches!(&plans[1].target, Target::Loopback(n) if n.name == "c"));
}

#[test]
fn tags_hash_like_the_standard_library() {
    let mut h = DefaultHasher::new();
    let pair: [&str; 2] = ["node-a", "node-b"];
    pair.hash(&mut h);
    1_778_157_296u64.hash(&mut h);
    let want = format!("{:016x}", h.finish());
    assert_eq!(pair_tag_at("node-a", "node-b", 1_778_157_296), want);
    assert_eq!(pair_tag_at("node-b", "node-a", 1_778_157_296), want);
    assert_ne!(pair_tag_at("node-a", "node-b", 1_778_157_297), want);
    assert_eq!(pair_tag("x", "y").len(), 16);
}

#[test]
fn prober_arguments_default() {
    let r = bare().resolve(&env(&[]));
    assert_eq!(r.cadence_secs, 21_600);
    assert_eq!(r.reconcile_interval_secs, 300);
    assert_eq!(r.namespace, "accelrd");
    assert_eq!(r.test_duration_secs, 30);
    assert_eq!(r.max_concurrent_pairs, 4);
    assert_eq!(r.service_name, "accelrd-prober");
    assert_eq!(
        r.refusal(),
        Some("probe_image is required (set --probe-image or ACCELRD_PROBER_PROBE_IMAGE)")
    );
    assert_eq!(with_image().refusal(), None);
}

#[test]
fn prober_arguments_from_the_environment() {
    let e = env(&[
        ("ACCELRD_PROBER_MAX_CONCURRENT_PAIRS", "4294967298"),
        ("ACCELRD_PROBER_NAMESPACE", "other"),
        ("ACCELRD_PROBER_PROBE_IMAGE", "img:2"),
    ]);
    let r = bare().resolve(&e);
    assert_eq!(r.max_concurrent_pairs, 2);
    assert_eq!(r.namespace, "other");
    assert_eq!(r.probe_image.as_deref(), Some("img:2"));
    assert_eq!(orphan_age(&r), 720);
}

#[test]
fn pods_need_an_image() {
    let args = bare().resolve(&env(&[]));
    let spec = PodSpec {
        role: Role::Server,
        node_name: "a",
        partner_node: "b",
        partner_ip: None,
        rack: "r1",
        pair_id: "p",
        args: &args,
    };
    assert_eq!(build_pod(&spec).unwrap_err().message(), "probe_image (set ACCELRD_PROBER_PROBE_IMAGE)");
}

#[test]
fn the_client_pod_knows_its_server() {
    let args = with_image();
    let spec = PodSpec {
        role: Role::Client,
        node_name: "b",
        partner_node: "a",
        partner_ip: Some("10.0.0.5"),
        rack: "r1",
        pair_id: "p",
        args: &args,
    };
    let pod = build_pod(&spec).unwrap();
    assert_eq!(pod.generate_name, "accelrd-probe-client-");
    assert_eq!(pod.node_name, "b");
    assert_eq!(pod.image, "img:1");
    assert_eq!(pod.args, vec!["probe", "--mode", "client"]);
    assert!(pod.host_network);
    assert_eq!(pod.add_capabilities, vec!["IPC_LOCK", "NET_RAW"]);
    let literal = |name: &str| {
        pod.env.iter().find(|e| e.name == name).and_then(|e| match &e.value {
            EnvValue::Literal(s) => Some(s.clone()),
            EnvValue::Field(_) => None,
        })
    };
    assert_eq!(literal("ACCELRD_PROBE_SERVER").as_deref(), Some("10.0.0.5"));
    assert_eq!(literal("ACCELRD_PROBE_PARTNER_NODE").as_deref(), Some("a"));
    assert_eq!(literal("ACCELRD_PROBE_DURATION_SECS").as_deref(), Some("30"));
    assert_eq!(pod.labels[3], ("accel-test.lunnova.dev/role", "client".to_string()));
}

#[test]
fn the_server_pod_has_no_server() {
    let args = with_image();
    let spec = PodSpec {
        role: Role::Server,
        node_name: "a",
        partner_node: "b",
        partner_ip: Some("10.0.0.5"),
        rack: "r1",
        pair_id: "p",
        args: &args,
    };
    let pod = build_pod(&spec).unwrap();
    assert!(pod.env.iter().all(|e| e.name != "ACCELRD_PROBE_SERVER"));
    assert_eq!(pod.env.len(), 11);
}

#[test]
fn waiting_for_a_pod() {
    let seen = |p: &str| await_terminal("p", PodLook::Seen(Some(p.to_string())));
    assert!(matches!(seen("Succeeded"), WaitNext::Over(Phase::Succeeded)));
    assert!(matches!(seen("Failed"), WaitNext::Over(Phase::Failed)));
    assert!(matches!(seen("Running"), WaitNext::Again));
    assert!(matches!(await_terminal("p", PodLook::Late), WaitNext::Over(Phase::Timeout)));
    assert!(matches!(await_terminal("p", PodLook::Failed), WaitNext::Again));
    match await_terminal("p", PodLook::Gone) {
        WaitNext::Broken(m) => assert_eq!(m, "pod p disappeared during probe"),
        other => panic!("{:?}", other),
    }
}

#[test]
fn waiting_for_an_address() {
    assert!(matches!(await_pod_ip("p", IpLook::Seen(None)), IpNext::Again));
    assert!(matches!(await_pod_ip("p", IpLook::Failed), IpNext::Again));
    assert!(matches!(await_pod_ip("p", IpLook::Seen(Some("1.2.3.4".to_string()))), IpNext::Ready(ip) if ip == "1.2.3.4"));
    assert!(matches!(await_pod_ip("p", IpLook::Late), IpNext::GiveUp(m) if m == "pod p got no IP before timeout"));
}

#[test]
fn leftovers_are_old_pods() {
    let pods = vec![
        PodObject { name: Some("old".to_string()), created: Some(1_778_150_000) },
        PodObject { name: Some("new".to_string()), created: Some(1_778_157_000) },
        PodObject { name: Some("edge".to_string()), created: Some(1_778_156_576) },
        PodObject { name: None, created: Some(0) },
        PodObject { name: Some("undated".to_string()), created: None },
    ];
    assert_eq!(cleanup_orphans(&pods, 1_778_157_296, 720), vec!["old"]);
    assert_eq!(cleanup_orphans(&pods, 1_778_157_297, 720), vec!["old", "edge"]);
}

fn begin_pair() -> Probe {
    let p = Plan { rack: "r1".to_string(), target: Target::Pair(nv("a", None), nv("b", None)) };
    Probe::begin(p, &with_image())
}

fn shown(ok: bool, message: Option<&str>) -> ProbeRecord<String> {
    ProbeRecord {
        side: "client".to_string(),
        ok,
        server: None,
        device: "mlx5_0".to_string(),
        bytes: None,
        bw_peak_gbps: Some("89.60".to_string()),
        bw_avg_gbps: Some("89.40".to_string()),
        msg_rate_mpps: None,
        duration_s: "30.1".to_string(),
        message: message.map(str::to_string),
        src_rack: None,
        partner_node: None,
    }
}

fn brief(actions: &[Action]) -> Vec<String> {
    actions
        .iter()
        .map(|a| match a {
            Action::CreatePod(p) => format!("create {}", p.generate_name),
            Action::AwaitIp(n, s) => format!("ip {} {}", n, s),
            Action::AwaitTerminal(n, s) => format!("end {} {}", n, s),
            Action::ReadRecord(n) => format!("read {}", n),
            Action::DeletePod(n) => format!("delete {}", n),
            Action::Count(c) => format!("count {} {} {}", c.metric, c.rack, c.verdict),
            Action::Patch(Verdict::Passed(f)) => format!("ok {}", f.device),
            Action::Patch(Verdict::Fail(m)) => format!("fail {}", m),
            Action::Patch(Verdict::Timeout) => "timeout".to_string(),
        })
        .collect()
}

fn running(p: &Probe) -> Stage {
    let (stage, _) = p.start();
    let (stage, _) = p.step(stage, Event::Created(Ok(Some("s".to_string()))));
    let (stage, _) = p.step(stage, Event::Ip(Ok("10.0.0.5".to_string())));
    let (stage, actions) = p.step(stage, Event::Created(Ok(Some("c".to_string()))));
    assert_eq!(brief(&actions), vec!["end c 150"]);
    stage
}

#[test]
fn a_probe_that_goes_well() {
    let p = begin_pair();
    let (stage, actions) = p.start();
    assert_eq!(brief(&actions), vec!["create accelrd-probe-server-"]);
    let (stage, actions) = p.step(stage, Event::Created(Ok(Some("s".to_string()))));
    assert_eq!(brief(&actions), vec!["ip s 60"]);
    let (stage, actions) = p.step(stage, Event::Ip(Ok("10.0.0.5".to_string())));
    assert_eq!(brief(&actions), vec!["create accelrd-probe-client-"]);
    let (stage, actions) = p.step(stage, Event::Created(Ok(Some("c".to_string()))));
    assert_eq!(brief(&actions), vec!["end c 150"]);
    let (stage, actions) = p.step(stage, Event::Ended(Ok(Phase::Succeeded)));
    assert_eq!(brief(&actions), vec!["read c"]);
    let (stage, actions) = p.step(stage, Event::Record(Ok(shown(true, None))));
    assert!(matches!(stage, Stage::Finished));
    assert_eq!(
        brief(&actions),
        vec!["count roce.probe.attempts.total r1 ok", "ok mlx5_0", "delete c", "delete s"]
    );
}

#[test]
fn every_failure_cleans_up() {
    let p = begin_pair();
    let fail = |m: &str| format!("fail {}", m);
    let count = "count roce.probe.attempts.total r1 fail".to_string();
    let (stage, _) = p.start();
    let (over, actions) = p.step(Stage::CreatingServer, Event::Unbuilt("no pod".to_string()));
    assert!(matches!(over, Stage::Finished));
    assert_eq!(brief(&actions), vec![count.clone(), fail("build server pod: no pod")]);
    let (_, actions) = p.step(Stage::CreatingClient("s".to_string()), Event::Unbuilt("no pod".to_string()));
    assert_eq!(brief(&actions), vec!["delete s".to_string(), count.clone(), fail("build client pod: no pod")]);

    let (stage, actions) = p.step(stage, Event::Created(Err("quota".to_string())));
    assert!(matches!(stage, Stage::Finished));
    assert_eq!(brief(&actions), vec![count.clone(), fail("create server pod: quota")]);

    let (_, actions) = p.step(Stage::AwaitingIp("s".to_string()), Event::Ip(Err("late".to_string())));
    assert_eq!(brief(&actions), vec!["delete s".to_string(), count.clone(), fail("server pod IP: late")]);

    let (_, actions) = p.step(Stage::CreatingClient("s".to_string()), Event::Created(Err("quota".to_string())));
    assert_eq!(brief(&actions), vec!["delete s".to_string(), count.clone(), fail("create client pod: quota")]);

    let (_, actions) = p.step(running(&p), Event::Ended(Err("gone".to_string())));
    assert_eq!(
        brief(&actions),
        vec!["delete s".to_string(), "delete c".to_string(), count.clone(), fail("watch client pod: gone")]
    );

    let (_, actions) = p.step(running(&p), Event::Ended(Ok(Phase::Failed)));
    assert_eq!(
        brief(&actions),
        vec![count.clone(), fail("client pod phase Failed"), "delete c".to_string(), "delete s".to_string()]
    );

    let (_, actions) = p.step(running(&p), Event::Ended(Ok(Phase::Timeout)));
    assert_eq!(
        brief(&actions),
        vec!["count roce.probe.attempts.total r1 timeout", "timeout", "delete c", "delete s"]
    );
}

#[test]
fn records_that_do_not_say_ok() {
    let p = begin_pair();
    let (reading, _) = p.step(running(&p), Event::Ended(Ok(Phase::Succeeded)));
    let (_, actions) = p.step(reading, Event::Record(Ok(shown(false, Some("slow")))));
    assert_eq!(brief(&actions)[1], "fail slow");
    let (reading, _) = p.step(running(&p), Event::Ended(Ok(Phase::Succeeded)));
    let (_, actions) = p.step(reading, Event::Record(Ok(shown(false, None))));
    assert_eq!(brief(&actions)[1], "fail probe ok=false");
    let (reading, _) = p.step(running(&p), Event::Ended(Ok(Phase::Succeeded)));
    let (_, actions) = p.step(reading, Event::Record(Err("parse probe stdout".to_string())));
    assert_eq!(brief(&actions)[1], "fail read client pod: parse probe stdout");
}

#[test]
fn without_an_image_nothing_is_made() {
    let mut p = begin_pair();
    p.args.probe_image = None;
    let (stage, actions) = p.start();
    assert!(matches!(stage, Stage::Finished));
    assert_eq!(
        brief(&actions),
        vec![
            "count roce.probe.attempts.total r1 fail",
            "fail build server pod: probe_image (set ACCELRD_PROBER_PROBE_IMAGE)"
        ]
    );
    let (_, actions) = p.step(Stage::AwaitingIp("s".to_string()), Event::Ip(Ok("10.0.0.5".to_string())));
    assert_eq!(
        brief(&actions)[2],
        "fail build client pod: probe_image (set ACCELRD_PROBER_PROBE_IMAGE)"
    );
}

#[test]
fn stray_events_change_nothing() {
    let p = begin_pair();
    let (stage, actions) = p.step(Stage::AwaitingIp("s".to_string()), Event::Ended(Ok(Phase::Failed)));
    assert!(matches!(stage, Stage::AwaitingIp(n) if n == "s"));
    assert!(actions.is_empty());
    let (stage, actions) = p.step(Stage::Finished, Event::Created(Ok(None)));
    assert!(matches!(stage, Stage::Finished));
    assert!(actions.is_empty());
}

#[test]
fn probes_of_one_node_count_apart() {
    let plan = Plan { rack: "r9".to_string(), target: Target::Loopback(nv("solo", None)) };
    let p = Probe::begin(plan, &with_image());
    let (_, actions) = p.step(Stage::CreatingServer, Event::Created(Err("e".to_string())));
    assert_eq!(brief(&actions)[0], "count roce.probe.loopback.attempts.total r9 fail");
    let patches = p.patches("2026-05-07T12:34:56Z", &Verdict::Timeout);
    assert_eq!(patches.len(), 1);
    assert_eq!(patches[0].node, "solo");
    assert!(patches[0].annotations.contains_key("accel-test.lunnova.dev/last-loopback-at"));
}

#[test]
fn both_nodes_are_told() {
    let p = begin_pair();
    let patches = p.patches("2026-05-07T12:34:56Z", &Verdict::Fail("slow".to_string()));
    assert_eq!(patches.len(), 2);
    let partner = "accel-test.lunnova.dev/last-rack-partner";
    assert_eq!(patches[0].node, "a");
    assert_eq!(patches[0].annotations.get(partner).and_then(|v| v.as_str()), Some("b"));
    assert_eq!(patches[1].annotations.get(partner).and_then(|v| v.as_str()), Some("a"));
    assert_eq!(patches[1].annotations.get(ANN_LAST_AT).and_then(|v| v.as_str()), Some("2026-05-07T12:34:56Z"));
}

#[test]
fn annotations_of_a_success() {
    let v = Verdict::Passed(Figures {
        device: "mlx5_0".to_string(),
        bw_avg: Some("89.40".to_string()),
        bw_peak: None,
        msg_rate: Some("0.179173".to_string()),
    });
    let body = build_body(Family::Rack, Some("b"), "2026-05-07T12:34:56Z", &v);
    let get = |k: &str| body.get(&format!("accel-test.lunnova.dev/last-rack-{}", k));
    assert_eq!(get("verdict").and_then(|v| v.as_str()), Some("ok"));
    assert_eq!(get("bw-gbps").and_then(|v| v.as_str()), Some("89.40"));
    assert_eq!(get("msg-rate-mpps").and_then(|v| v.as_str()), Some("0.179173"));
    assert!(get("reason").unwrap().is_null());
    assert!(get("bw-peak-gbps").is_none());
}

#[test]
fn annotations_of_a_failure() {
    let body = build_body(Family::Loopback, Some("b"), "t", &Verdict::Timeout);
    let get = |k: &str| body.get(&format!("accel-test.lunnova.dev/last-loopback-{}", k));
    assert_eq!(get("verdict").and_then(|v| v.as_str()), Some("timeout"));
    assert_eq!(get("reason").and_then(|v| v.as_str()), Some("probe pod did not terminate before timeout"));
    assert!(get("bw-gbps").unwrap().is_null());
    assert!(get("bw-peak-gbps").unwrap().is_null());
    assert!(get("msg-rate-mpps").unwrap().is_null());
    assert!(body.get("accel-test.lunnova.dev/last-rack-partner").is_none());
}
