use accelrd::probe::device::{select, NoDevice};
use accelrd::probe::net::{wait_connectable, Attempt, Next, FIRST_BACKOFF_MS};
use accelrd::probe::perftest::{build_cmd, parse, parse_required};
use accelrd::probe::{build_record, judge, judge_exit, Outcome, ProbeArgs, ProbeMode, Resolved, RunReport};
use accelrd::telemetry::AttrValue;
use accelrd::textmap::TextMap;
use std::str::FromStr;

const SAMPLE_GBITS: &str = "\
---------------------------------------------------------------------------------------
                    Send BW Test
 Dual-port       : OFF\t\tDevice         : mlx5_0
 Number of qps   : 1\t\tTransport type : IB
 Connection type : RC\t\tUsing SRQ      : OFF
 PCIe relax order: ON
 ibv_wr* API     : OFF
 TX depth        : 128
 CQ Moderation   : 100 Mtu             : 4096[B]
 Link type       : Ethernet GID index       : 3
 Max inline data : 0[B]
 rdma_cm QPs\t : OFF
 Data ex. method : Ethernet
---------------------------------------------------------------------------------------
 local address: LID 0000 QPN 0x0050 PSN 0xa6e8e1
 GID: 00:00:00:00:00:00:00:00:00:00:255:255:10:00:00:01
 remote address: LID 0000 QPN 0x0050 PSN 0xa6e8e1
 GID: 00:00:00:00:00:00:00:00:00:00:255:255:10:00:00:02
---------------------------------------------------------------------------------------
 #bytes     #iterations    BW peak[Gb/sec]    BW average[Gb/sec]   MsgRate[Mpps]
 65536      5000             89.60              89.40                0.179173
---------------------------------------------------------------------------------------
";

const SAMPLE_MBPS: &str = "\
---------------------------------------------------------------------------------------
 #bytes     #iterations    BW peak[MB/sec]    BW average[MB/sec]   MsgRate[Mpps]
 65536      1000             11200.45         11198.32             0.179173
---------------------------------------------------------------------------------------
";

fn number(s: &str) -> f64 {
    s.parse().unwrap()
}

fn env(pairs: &[(&str, &str)]) -> TextMap<String> {
    let mut m = TextMap::new();
    for (k, v) in pairs {
        m.insert(k.to_string(), v.to_string());
    }
    m
}

fn bare(mode: ProbeMode) -> ProbeArgs {
    ProbeArgs {
        mode,
        server: None,
        device: None,
        duration_secs: None,
        connect_timeout_secs: None,
        otlp_endpoint: None,
        service_name: None,
        src_rack: None,
        partner_node: None,
    }
}

fn resolved(mode: ProbeMode) -> Resolved {
    bare(mode).resolve(&env(&[]))
}

#[test]
fn parses_gbits_summary() {
    let s = parse(SAMPLE_GBITS).expect("parse");
    assert_eq!(s.bytes, 65536);
    assert_eq!(s.iterations, 5000);
    assert!((number(&s.bw_peak_gbps) - 89.60).abs() < 1e-6);
    assert!((number(&s.bw_avg_gbps) - 89.40).abs() < 1e-6);
    assert!((number(&s.msg_rate_mpps) - 0.179173).abs() < 1e-9);
}

#[test]
fn parses_mbps_summary_into_floats() {
    let s = parse(SAMPLE_MBPS).expect("parse");
    assert_eq!(s.bytes, 65536);
    assert!((number(&s.bw_peak_gbps) - 11200.45).abs() < 1e-3);
}

#[test]
fn returns_none_on_malformed_input() {
    assert!(parse("nothing useful here").is_none());
    assert!(parse("").is_none());
}

#[test]
fn build_cmd_client_has_server_arg() {
    let cmd = build_cmd(Some("10.0.0.5"), "mlx5_0", 18515, 30);
    assert!(cmd.args.iter().any(|a| a == "10.0.0.5"));
    assert!(cmd.args.iter().any(|a| a == "mlx5_0"));
    assert!(cmd.args.iter().any(|a| a == "--report_gbits"));
    assert!(cmd.args.iter().any(|a| a == "30"));
}

#[test]
fn build_cmd_server_omits_server_arg() {
    let cmd = build_cmd(None, "mlx5_0", 18515, 30);
    assert_eq!(cmd.args.last().map(String::as_str), Some("30"));
}

#[test]
fn command_line_in_full() {
    let cmd = build_cmd(Some("host"), "mlx5_1", 18515, 7);
    assert_eq!(cmd.program, "ib_send_bw");
    assert_eq!(
        cmd.args,
        vec!["-F", "--report_gbits", "-d", "mlx5_1", "-p", "18515", "--duration", "7", "host"]
    );
}

#[test]
fn a_later_header_counts_where_the_first_row_is_bad() {
    let text = "#bytes #iterations MsgRate\n1 2 x 4 5\n#bytes #iterations MsgRate\n\n--- rule\n 1 2 3.5 4e1 .5 more\n";
    let s = parse(text).unwrap();
    assert_eq!((s.bytes, s.iterations), (1, 2));
    assert_eq!((s.bw_peak_gbps.as_str(), s.bw_avg_gbps.as_str(), s.msg_rate_mpps.as_str()), ("3.5", "4e1", ".5"));
    assert!(parse("#bytes #iterations MsgRate\n1 2 3 4\n").is_none());
    assert!(parse("#bytes #iterations MsgRate\n-1 2 3 4 5\n").is_none());
}

#[test]
fn missing_summary_is_an_error() {
    let e = parse_required("nothing").unwrap_err();
    assert_eq!(e.message(), "perftest output had no parseable summary row");
}

#[test]
fn explicit_device_wins() {
    assert_eq!(select(Some("mlx5_9"), None).unwrap(), "mlx5_9");
    assert_eq!(select(None, Some(vec!["mlx5_1".to_string(), "mlx5_0".to_string()])).unwrap(), "mlx5_0");
}

#[test]
fn no_device_is_an_error() {
    let absent = select(None, Some(Vec::new())).unwrap_err();
    assert_eq!(absent, NoDevice::Absent);
    assert_eq!(absent.message(), "no RDMA devices in /sys/class/infiniband (kernel ib drivers loaded?)");
    let unreadable = select(None, None).unwrap_err();
    assert_eq!(unreadable, NoDevice::Unreadable);
    assert_eq!(unreadable.message(), "read /sys/class/infiniband");
}

#[test]
fn pauses_double_up_to_two_seconds() {
    let mut backoff = FIRST_BACKOFF_MS;
    let mut pauses = Vec::new();
    for _ in 0..6 {
        match wait_connectable("h", 1, backoff, Attempt::Refused) {
            Next::Retry { pause_ms, backoff_ms } => {
                pauses.push(pause_ms);
                backoff = backoff_ms;
            }
            other => panic!("{:?}", other),
        }
    }
    assert_eq!(pauses, vec![200, 400, 800, 1600, 2000, 2000]);
}

#[test]
fn waiting_ends() {
    assert!(matches!(wait_connectable("h", 1, 200, Attempt::Connected), Next::Ready));
    match wait_connectable("10.0.0.5", 18515, 200, Attempt::Late) {
        Next::GiveUp(m) => assert_eq!(m, "timeout waiting for 10.0.0.5:18515 to accept TCP"),
        other => panic!("{:?}", other),
    }
}

#[test]
fn modes_by_name() {
    assert_eq!(ProbeMode::from_str("server"), Ok(ProbeMode::Server));
    assert_eq!(ProbeMode::from_str("client"), Ok(ProbeMode::Client));
    assert_eq!(ProbeMode::Client.slug(), "client");
    assert_eq!(
        ProbeMode::from_name("cli\"ent"),
        Err("invalid mode \"cli\\\"ent\"; expected 'server' or 'client'".to_string())
    );
}

#[test]
fn probe_arguments_default() {
    let r = resolved(ProbeMode::Server);
    assert_eq!(r.duration_secs, 30);
    assert_eq!(r.connect_timeout_secs, 60);
    assert_eq!(r.otlp_endpoint, "http://127.0.0.1:4318");
    assert_eq!(r.service_name, "accelrd-probe");
    assert_eq!(r.server, None);
}

#[test]
fn probe_arguments_from_the_environment() {
    let e = env(&[
        ("ACCELRD_PROBE_SERVER", "10.0.0.5"),
        ("ACCELRD_PROBE_DURATION_SECS", "12"),
        ("ACCELRD_PROBE_CONNECT_TIMEOUT_SECS", "soon"),
        ("ACCELRD_PROBE_SRC_RACK", ""),
    ]);
    let mut args = bare(ProbeMode::Client);
    args.device = Some("mlx5_0".to_string());
    let r = args.resolve(&e);
    assert_eq!(r.server.as_deref(), Some("10.0.0.5"));
    assert_eq!(r.duration_secs, 12);
    assert_eq!(r.connect_timeout_secs, 60);
    assert_eq!(r.src_rack, None);
    assert_eq!(r.device.as_deref(), Some("mlx5_0"));
    assert_eq!(r.peer().unwrap(), Some("10.0.0.5"));
}

#[test]
fn clients_need_a_server() {
    assert_eq!(resolved(ProbeMode::Server).peer().unwrap(), None);
    let e = resolved(ProbeMode::Client).peer().unwrap_err();
    assert_eq!(e.message(), "--server (or ACCELRD_PROBE_SERVER) required in client mode");
}

fn failure(o: Outcome) -> String {
    match o {
        Outcome::Failed(m) => m,
        Outcome::Measured(_) => panic!("measured"),
    }
}

#[test]
fn runs_that_fail() {
    assert_eq!(failure(judge(RunReport::Unreachable("late".to_string()))), "server unreachable: late");
    assert_eq!(failure(judge(RunReport::NotSpawned("ENOENT".to_string()))), "spawn ib_send_bw: ENOENT");
    assert_eq!(
        failure(judge_exit(false, "exit status: 1", "", "first\n last \n\n")),
        "ib_send_bw exit exit status: 1:  last"
    );
    assert_eq!(failure(judge_exit(false, "signal: 9", "", "")), "ib_send_bw exit signal: 9: ");
    assert_eq!(failure(judge_exit(true, "", "nothing", "")), "perftest output had no parseable summary row");
}

#[test]
fn output_that_is_no_utf8_is_shown() {
    let o = judge(RunReport::Exited {
        success: false,
        status: "exit status: 2".to_string(),
        stdout: Vec::new(),
        stderr: vec![b'a', 0xff, b'b'],
    });
    assert_eq!(failure(o), "ib_send_bw exit exit status: 2: a\u{fffd}b");
}

#[test]
fn a_run_that_ends_well_is_measured() {
    let o = judge(RunReport::Exited {
        success: true,
        status: "exit status: 0".to_string(),
        stdout: SAMPLE_GBITS.as_bytes().to_vec(),
        stderr: Vec::new(),
    });
    let r = build_record(&resolved(ProbeMode::Client), "mlx5_0", 30.5f64, o);
    assert!(r.ok);
    assert_eq!(r.side, "client");
    assert_eq!(r.bytes, Some(65536));
    assert_eq!(r.bw_avg_gbps.as_deref(), Some("89.40"));
    assert_eq!(r.duration_s, 30.5);
    assert_eq!(r.message, None);
    assert_eq!(r.failure(), None);
}

#[test]
fn records_of_failures() {
    let mut args = resolved(ProbeMode::Server);
    args.src_rack = Some("r1".to_string());
    let r = build_record(&args, "mlx5_0", 0.0f64, Outcome::Failed("boom".to_string()));
    assert!(!r.ok);
    assert_eq!(r.bytes, None);
    assert_eq!(r.failure(), Some("probe failed: boom".to_string()));
    let keys: Vec<String> = r.attrs().into_iter().map(|a| a.key).collect();
    assert_eq!(keys, vec!["side", "device", "ok", "src_rack"]);
    assert!(matches!(r.attrs()[2].value, AttrValue::Flag(false)));
    assert!(r.gauges().iter().all(|g| g.value.is_none()));
}

#[test]
fn gauges_of_a_record() {
    let o = judge_exit(true, "", SAMPLE_GBITS, "");
    let r = build_record(&resolved(ProbeMode::Client), "mlx5_0", 0.0f64, o);
    let g: Vec<(&str, &str, Option<&str>)> = r.gauges().iter().map(|g| (g.name, g.unit, g.value)).collect();
    assert_eq!(
        g,
        vec![
            ("roce.probe.bandwidth.avg.gbps", "Gb/s", Some("89.40")),
            ("roce.probe.bandwidth.peak.gbps", "Gb/s", Some("89.60")),
            ("roce.probe.message_rate.mpps", "Mpps", Some("0.179173")),
        ]
    );
}

#[test]
fn probe_failure_without_message() {
    let mut r = build_record(&resolved(ProbeMode::Server), "d", 0.0f64, Outcome::Failed("x".to_string()));
    r.message = None;
    assert_eq!(r.failure(), Some("probe failed: unknown".to_string()));
}
