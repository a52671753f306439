use accelrd::admin::assets::{asset, index, mime_for, serve};
use accelrd::admin::k8s::{list_nodes, parse_count_labels, summarize, NodeView};
use accelrd::admin::mutel::{
    latest_by_node, log_limit, log_params, query_error, urlencode, window_params, Json, MetricQueryParams,
    MutelClient, QueryStage,
};
use accelrd::admin::routes::{cluster_status, fleet, probes, service_status, ApiError, FleetAnswers, FLEET_QUERIES};
use accelrd::admin::AdminArgs;
use accelrd::k8s::node::{ConditionObject, NodeObject};
use accelrd::textmap::TextMap;
use include_dir::{Dir, DirEntry, File};

fn texts(pairs: &[(&str, &str)]) -> TextMap<String> {
    let mut m = TextMap::new();
    for (k, v) in pairs {
        m.insert(k.to_string(), v.to_string());
    }
    m
}

fn node(name: &str, labels: &[(&str, &str)], annotations: &[(&str, &str)]) -> NodeObject {
    NodeObject {
        name: Some(name.to_string()),
        labels: Some(texts(labels)),
        annotations: Some(texts(annotations)),
        conditions: Some(vec![ConditionObject {
            kind: "Ready".to_string(),
            status: "True".to_string(),
            reason: Some("KubeletReady".to_string()),
        }]),
        unschedulable: false,
        kubelet_version: Some("v1.33".to_string()),
    }
}

#[test]
fn admin_arguments() {
    let bare = AdminArgs {
        listen: None,
        mutel_endpoint: None,
        otlp_endpoint: None,
        service_name: None,
        mutel_timeout_secs: None,
        no_k8s: true,
    };
    let r = bare.resolve(&texts(&[("ACCELRD_ADMIN_LISTEN", "nowhere")]));
    assert_eq!(r.listen, "nowhere");
    assert_eq!(r.listen_error(), "parse listen addr \"nowhere\"");
    assert_eq!(r.mutel_endpoint, "http://mutel.observability.svc.cluster.local:4318");
    assert_eq!(r.mutel_timeout_secs, 5);
    assert_eq!(r.service_name, "accelrd-admin");
    assert!(r.no_k8s);
}

#[test]
fn types_of_files() {
    assert_eq!(mime_for("index.html"), "text/html; charset=utf-8");
    assert_eq!(mime_for("a/b.min.css"), "text/css; charset=utf-8");
    assert_eq!(mime_for("x.mjs"), "application/javascript; charset=utf-8");
    assert_eq!(mime_for("x.json"), "application/json; charset=utf-8");
    assert_eq!(mime_for("x.svg"), "image/svg+xml");
    assert_eq!(mime_for("x.png"), "image/png");
    assert_eq!(mime_for("x.ico"), "image/x-icon");
    assert_eq!(mime_for("x.woff2"), "font/woff2");
    assert_eq!(mime_for("LICENSE"), "application/octet-stream");
    assert_eq!(mime_for("x.HTML"), "application/octet-stream");
}

#[test]
fn files_of_the_page() {
    const ENTRIES: &[DirEntry<'static>] = &[
        DirEntry::File(File::new("index.html", b"<p>hi</p>")),
        DirEntry::File(File::new("app.js", b"run()")),
    ];
    let dir: Dir<'static> = Dir::new("", ENTRIES);
    let page = index(&dir).unwrap();
    assert_eq!(page.contents, b"<p>hi</p>");
    assert_eq!(page.mime, "text/html; charset=utf-8");
    assert_eq!(page.cache_control, "public, max-age=60, must-revalidate");
    assert_eq!(serve(&dir, "/").unwrap().contents, b"<p>hi</p>");
    assert_eq!(serve(&dir, "").unwrap().contents, b"<p>hi</p>");
    assert_eq!(serve(&dir, "/app.js").unwrap().contents, b"run()");
    assert_eq!(serve(&dir, "app.js").unwrap().mime, "application/javascript; charset=utf-8");
    assert!(serve(&dir, "/missing.js").is_none());
    assert!(asset("x", None).is_none());
}

#[test]
fn names_in_addresses() {
    assert_eq!(urlencode("accel.memory-x_y~1"), "accel.memory-x_y~1");
    assert_eq!(urlencode("a b/ä%"), "a%20b%2F%C3%A4%25");
    let c = MutelClient::new("http://m:1//");
    assert_eq!(c.base(), "http://m:1");
    assert_eq!(c.list_metrics(), "http://m:1/api/metrics");
    assert_eq!(c.ping(), "http://m:1/api/metrics");
    assert_eq!(c.query_metric("a b"), "http://m:1/api/metrics/a%20b");
    assert_eq!(c.recent_logs(), "http://m:1/api/logs/recent");
    assert_eq!(query_error("u", QueryStage::Send), "GET u");
    assert_eq!(query_error("u", QueryStage::Status), "GET u status");
    assert_eq!(query_error("u", QueryStage::Body), "GET u json");
}

#[test]
fn parameters_of_queries() {
    assert!(MetricQueryParams::default().to_pairs().is_empty());
    let p = window_params("sum", 1000, 300);
    assert_eq!(
        p.to_pairs(),
        vec![
            ("group_by", "r:k8s.node.name".to_string()),
            ("agg", "sum".to_string()),
            ("start", "700".to_string()),
            ("end", "1000".to_string()),
            ("max_points", "1".to_string()),
        ]
    );
    assert_eq!(window_params("max", i64::MIN, 1).start, Some(i64::MIN));
    assert_eq!(log_limit(None), 100);
    assert_eq!(log_limit(Some(7)), 7);
    assert_eq!(log_limit(Some(5000)), 1000);
    assert_eq!(log_params(None, 5), vec![("limit", "5".to_string())]);
    assert_eq!(
        log_params(Some("svc"), 5),
        vec![("limit", "5".to_string()), ("search", "svc".to_string())]
    );
}

fn object(members: Vec<(&str, Json<f64>)>) -> Json<f64> {
    Json::Object(members.into_iter().map(|(k, v)| (k.to_string(), v)).collect())
}

fn group(node: &str, points: Vec<Json<f64>>) -> Json<f64> {
    object(vec![
        ("key", object(vec![("r:k8s.node.name", Json::Text(node.to_string()))])),
        ("points", Json::List(points)),
    ])
}

fn point(v: Json<f64>) -> Json<f64> {
    Json::List(vec![Json::Number(1.0), v])
}

#[test]
fn the_latest_value_of_each_node() {
    let answer = object(vec![(
        "groups",
        Json::List(vec![
            group("a", vec![point(Json::Number(1.0)), point(Json::Number(2.5))]),
            group("", vec![point(Json::Number(9.0))]),
            group("b", vec![point(Json::NotFinite)]),
            group("c", vec![]),
            group("d", vec![Json::List(vec![Json::Number(1.0)])]),
            group("a", vec![point(Json::Text("x".to_string()))]),
            object(vec![("points", Json::List(vec![point(Json::Number(3.0))]))]),
        ]),
    )]);
    let m = latest_by_node(&answer);
    assert_eq!(m.len(), 1);
    assert_eq!(m.get("a"), Some(&2.5));
    assert_eq!(latest_by_node(&Json::<f64>::Null).len(), 0);
    assert_eq!(latest_by_node(&object(vec![("groups", Json::Flag(true))])).len(), 0);
}

#[test]
fn counts_in_labels() {
    let labels = Some(texts(&[
        ("accel.lunnova.dev/vendor.nvidia.count", "8"),
        ("accel.lunnova.dev/vendor.amd.physical-count", "4"),
        ("accel.lunnova.dev/vendor.intel.count", "many"),
        ("accel.lunnova.dev/model.h100.count", "8"),
    ]));
    let c = parse_count_labels(&labels, "accel.lunnova.dev/vendor.", ".count");
    assert_eq!(c.len(), 1);
    assert_eq!(c.get("nvidia"), Some(&8));
    assert_eq!(parse_count_labels(&None, "a", "b").len(), 0);
}

#[test]
fn a_node_as_shown() {
    let n = NodeView::from_node(&node(
        "n1",
        &[
            ("accel-topo.lunnova.dev/rack", "r1"),
            ("accel.lunnova.dev/total-count", "8"),
            ("accel-topo.lunnova.dev/fabric-domains-count", "x"),
            ("kubernetes.io/hostname", "n1"),
        ],
        &[
            ("accel-test.lunnova.dev/last-rack-at", "2026-05-07T12:34:56Z"),
            ("accel-test.lunnova.dev/last-rack-bandwidth-gbps", "89.4"),
            ("accel-test.lunnova.dev/last-rack-verdict", "ok"),
        ],
    ));
    assert_eq!(n.name, "n1");
    assert_eq!(n.rack.as_deref(), Some("r1"));
    assert_eq!(n.block, None);
    assert_eq!(n.total_accelerators, Some(8));
    assert_eq!(n.fabric_domains, 0);
    assert!(n.ready && n.schedulable);
    assert_eq!(n.conditions[0].reason.as_deref(), Some("KubeletReady"));
    assert_eq!(n.topo_labels.len(), 3);
    let p = n.last_probe.unwrap();
    assert_eq!(p.bandwidth_gbps.as_deref(), Some("89.4"));
    assert_eq!(p.partner, None);
    let silent = NodeView::from_node(&node("n2", &[], &[("accel-test.lunnova.dev/last-rack-bandwidth-gbps", "fast")]));
    assert!(silent.last_probe.is_none());
}

#[test]
fn probes_of_either_kind_are_shown() {
    let alone = NodeView::from_node(&node(
        "n1",
        &[],
        &[
            ("accel-test.lunnova.dev/last-loopback-at", "2026-05-07T12:34:56Z"),
            ("accel-test.lunnova.dev/last-loopback-bw-gbps", "350.10"),
            ("accel-test.lunnova.dev/last-loopback-verdict", "ok"),
        ],
    ));
    let p = alone.last_probe.unwrap();
    assert_eq!(p.at.as_deref(), Some("2026-05-07T12:34:56Z"));
    assert_eq!(p.bandwidth_gbps.as_deref(), Some("350.10"));
    assert_eq!(p.partner, None);
    assert_eq!(p.verdict.as_deref(), Some("ok"));
    let both = NodeView::from_node(&node(
        "n1",
        &[],
        &[
            ("accel-test.lunnova.dev/last-loopback-verdict", "ok"),
            ("accel-test.lunnova.dev/last-rack-verdict", "fail"),
        ],
    ));
    let p = both.last_probe.unwrap();
    assert_eq!(p.verdict.as_deref(), Some("fail"));
    assert_eq!(p.at, None);
}

#[test]
fn the_written_bandwidth_is_shown() {
    let shown = |a: &[(&str, &str)]| NodeView::from_node(&node("n", &[], a)).last_probe.and_then(|p| p.bandwidth_gbps);
    let written = "accel-test.lunnova.dev/last-rack-bw-gbps";
    let long = "accel-test.lunnova.dev/last-rack-bandwidth-gbps";
    assert_eq!(shown(&[(written, "89.40")]).as_deref(), Some("89.40"));
    assert_eq!(shown(&[(written, "89.40"), (long, "1.0")]).as_deref(), Some("1.0"));
    assert_eq!(shown(&[(written, "89.40"), (long, "fast")]).as_deref(), Some("89.40"));
    assert_eq!(shown(&[(written, "fast"), (long, "1.0")]).as_deref(), Some("1.0"));
    assert_eq!(shown(&[(written, "fast")]), None);
}

#[test]
fn the_cluster_at_a_glance() {
    let verdict = |v: &'static str| [("accel-test.lunnova.dev/last-rack-verdict", v)];
    let in_rack = |n: &'static str, max: &'static str| {
        [("accel-topo.lunnova.dev/rack", n), ("accel.lunnova.dev/vendor.amd.count", max)]
    };
    let mut nodes = vec![
        node("a", &in_rack("r1", "8"), &verdict("ok")),
        node("b", &in_rack("r1", "4"), &verdict("fail")),
        node("c", &in_rack("r2", "18446744073709551615"), &verdict("pass")),
        node("d", &[], &[]),
    ];
    nodes[3].conditions = None;
    let s = summarize(&list_nodes(&nodes));
    assert_eq!((s.nodes_total, s.nodes_ready), (4, 3));
    let r1 = s.racks.get("r1").unwrap();
    assert_eq!(r1.nodes, vec!["a", "b"]);
    assert_eq!((r1.healthy_probes, r1.failed_probes), (1, 1));
    assert_eq!(s.racks.get("r2").unwrap().healthy_probes, 1);
    assert_eq!(s.racks.len(), 2);
    assert_eq!(s.probe_verdicts.get("ok"), Some(&1));
    assert_eq!(s.vendor_totals.get("amd"), Some(&11));
}

#[test]
fn the_latest_probe_comes_first() {
    let at = |t: &'static str| [("accel-test.lunnova.dev/last-rack-at", t)];
    let nodes = vec![
        node("a", &[], &at("2026-05-01T00:00:00Z")),
        node("b", &[], &[("accel-test.lunnova.dev/last-rack-verdict", "ok")]),
        node("c", &[], &at("2026-05-03T00:00:00Z")),
        node("d", &[], &[]),
        node("e", &[], &at("2026-05-03T00:00:00Z")),
    ];
    let rows = probes(list_nodes(&nodes));
    let names: Vec<&str> = rows.iter().map(|r| r.node.as_str()).collect();
    assert_eq!(names, vec!["c", "e", "a", "b"]);
}

fn numbers(pairs: &[(&str, f64)]) -> Result<TextMap<f64>, String> {
    let mut m = TextMap::new();
    for (k, v) in pairs {
        m.insert(k.to_string(), *v);
    }
    Ok(m)
}

#[test]
fn the_fleet_at_present() {
    let f = fleet(FleetAnswers {
        vram_used: numbers(&[("a", 1.0)]),
        vram_total: numbers(&[("a", 10.0)]),
        dedicated_total: numbers(&[("a", 99.0), ("b", 20.0)]),
        power: Err("GET p".to_string()),
        temperature: Err("GET t".to_string()),
        utilization: numbers(&[("c", 0.5)]),
    });
    assert!(!f.available);
    assert_eq!(f.error.as_deref(), Some("GET p"));
    assert_eq!((f.by_node.len(), f.nodes_with_data), (3, 3));
    let a = f.by_node.get("a").unwrap();
    assert_eq!((a.memory_used_bytes, a.memory_total_bytes, a.power_watts), (Some(1.0), Some(10.0), None));
    assert_eq!(f.by_node.get("b").unwrap().memory_total_bytes, Some(20.0));
    assert_eq!(f.by_node.get("c").unwrap().utilization, Some(0.5));
    assert_eq!(FLEET_QUERIES[4], ("accel.temperature", "max"));
}

#[test]
fn a_fleet_without_errors_is_available() {
    let f = fleet::<f64>(FleetAnswers {
        vram_used: numbers(&[]),
        vram_total: numbers(&[]),
        dedicated_total: numbers(&[]),
        power: numbers(&[]),
        temperature: numbers(&[]),
        utilization: numbers(&[]),
    });
    assert!(f.available && f.error.is_none());
    assert_eq!((f.by_node.len(), f.nodes_with_data), (0, 0));
}

#[test]
fn health_and_errors() {
    assert!(service_status(Ok(())).ok);
    assert_eq!(service_status(Err("down".to_string())).error.as_deref(), Some("down"));
    assert_eq!(cluster_status(None).error.as_deref(), Some("k8s client disabled or unavailable"));
    assert!(cluster_status(Some(Ok(()))).ok);
    assert!(!cluster_status(Some(Err("e".to_string()))).ok);
    let e = ApiError::cluster("m".to_string());
    assert_eq!((e.status, e.source, e.message.as_str()), (502, "cluster", "m"));
    assert_eq!(ApiError::upstream("m".to_string()).source, "mutel");
}
