//! One side of a bandwidth test between two nodes. The server waits for its
//! client; the client waits until the server accepts connections. Either
//! runs `ib_send_bw`, reads its summary, and prints a record of one line for
//! the prober.

pub mod device;
pub mod laws;
pub mod net;
pub mod perftest;

use crate::config;
use crate::scan;
use crate::telemetry;
use crate::telemetry::{Attr, AttrModel};
use crate::text;
use crate::textmap::TextMap;
use perftest::{Summary, SummaryModel};
use std::str::FromStr;
use vstd::prelude::*;
use vstd::utf8;

verus! {

/// The port on which the two sides meet, as `ib_send_bw` has it.
pub const PERFTEST_PORT: u16 = 18515;

// ---------------------------------------------------------------------
// Arguments
// ---------------------------------------------------------------------

/// The side of a probe.
#[derive(Debug, Clone, Copy, PartialEq, Eq, Structural)]
pub enum ProbeMode {
    Server,
    Client,
}

impl ProbeMode {
    /// The side's name.
    pub open spec fn name(self) -> Seq<char> {
        match self {
            ProbeMode::Server => "server"@,
            ProbeMode::Client => "client"@,
        }
    }

    /// The side's name.
    pub fn slug(&self) -> (r: &'static str)
        ensures
            r@ == self.name(),
    {
        match self {
            ProbeMode::Server => "server",
            ProbeMode::Client => "client",
        }
    }

    /// The side with the given name.
    pub fn from_name(s: &str) -> (r: Result<Self, String>)
        ensures
            match r {
                Ok(m) => s@ == m.name(),
                Err(e) => {
                    &&& s@ != "server"@ && s@ != "client"@
                    &&& e@ == "invalid mode "@ + text::debug_text(s@) + "; expected 'server' or 'client'"@
                },
            },
    {
        if text::same(s, "server") {
            Ok(ProbeMode::Server)
        } else if text::same(s, "client") {
            Ok(ProbeMode::Client)
        } else {
            Err(
                text::join3(
                    "invalid mode ",
                    text::quoted(s).as_str(),
                    "; expected 'server' or 'client'",
                ),
            )
        }
    }
}

impl FromStr for ProbeMode {
    type Err = String;

    fn from_str(s: &str) -> (r: Result<Self, String>)
        ensures
            match r {
                Ok(m) => s@ == m.name(),
                Err(e) => {
                    &&& s@ != "server"@ && s@ != "client"@
                    &&& e@ == "invalid mode "@ + text::debug_text(s@) + "; expected 'server' or 'client'"@
                },
            },
    {
        ProbeMode::from_name(s)
    }
}

/// The probe's command line.
#[derive(Debug)]
pub struct ProbeArgs {
    /// The side to run.
    pub mode: ProbeMode,
    /// The server's name or address, for the client.
    pub server: Option<String>,
    /// The RDMA device; the first one, where none is given.
    pub device: Option<String>,
    /// How long the test runs, in seconds.
    pub duration_secs: Option<u64>,
    /// How long the client waits for the server to accept connections, in
    /// seconds.
    pub connect_timeout_secs: Option<u64>,
    /// Base address of the OTLP receiver.
    pub otlp_endpoint: Option<String>,
    /// The `service.name` of what is exported.
    pub service_name: Option<String>,
    /// The rack of this side.
    pub src_rack: Option<String>,
    /// The node of the other side.
    pub partner_node: Option<String>,
}

/// The arguments with nothing left open.
#[derive(Debug)]
pub struct Resolved {
    pub mode: ProbeMode,
    pub server: Option<String>,
    pub device: Option<String>,
    pub duration_secs: u64,
    pub connect_timeout_secs: u64,
    pub otlp_endpoint: String,
    pub service_name: String,
    pub src_rack: Option<String>,
    pub partner_node: Option<String>,
}

impl ProbeArgs {
    /// The arguments with what is open taken from the environment `env`, and
    /// after that from the defaults.
    pub fn resolve(self, env: &TextMap<String>) -> (r: Resolved)
        ensures
            r.mode == self.mode,
            text::opt_text(r.server) == config::first_of(
                text::opt_text(self.server),
                config::env_text(*env, "ACCELRD_PROBE_SERVER"@),
            ),
            text::opt_text(r.device) == config::first_of(
                text::opt_text(self.device),
                config::env_text(*env, "ACCELRD_PROBE_DEVICE"@),
            ),
            r.duration_secs == config::value_or(
                config::first_of(
                    config::opt_nat(self.duration_secs),
                    config::env_number(*env, "ACCELRD_PROBE_DURATION_SECS"@),
                ),
                30,
            ),
            r.connect_timeout_secs == config::value_or(
                config::first_of(
                    config::opt_nat(self.connect_timeout_secs),
                    config::env_number(*env, "ACCELRD_PROBE_CONNECT_TIMEOUT_SECS"@),
                ),
                60,
            ),
            r.otlp_endpoint@ == config::value_or(
                config::first_of(
                    text::opt_text(self.otlp_endpoint),
                    config::env_text(*env, "ACCELRD_OTLP_ENDPOINT"@),
                ),
                "http://127.0.0.1:4318"@,
            ),
            r.service_name@ == config::value_or(
                config::first_of(
                    text::opt_text(self.service_name),
                    config::env_text(*env, "OTEL_SERVICE_NAME"@),
                ),
                "accelrd-probe"@,
            ),
            text::opt_text(r.src_rack) == config::first_of(
                text::opt_text(self.src_rack),
                config::env_text(*env, "ACCELRD_PROBE_SRC_RACK"@),
            ),
            text::opt_text(r.partner_node) == config::first_of(
                text::opt_text(self.partner_node),
                config::env_text(*env, "ACCELRD_PROBE_PARTNER_NODE"@),
            ),
    {
        Resolved {
            mode: self.mode,
            server: config::text_or_env(self.server, env, "ACCELRD_PROBE_SERVER"),
            device: config::text_or_env(self.device, env, "ACCELRD_PROBE_DEVICE"),
            duration_secs: config::number_or_default(
                self.duration_secs,
                env,
                "ACCELRD_PROBE_DURATION_SECS",
                30,
            ),
            connect_timeout_secs: config::number_or_default(
                self.connect_timeout_secs,
                env,
                "ACCELRD_PROBE_CONNECT_TIMEOUT_SECS",
                60,
            ),
            otlp_endpoint: config::text_or_default(
                self.otlp_endpoint,
                env,
                "ACCELRD_OTLP_ENDPOINT",
                "http://127.0.0.1:4318",
            ),
            service_name: config::text_or_default(
                self.service_name,
                env,
                "OTEL_SERVICE_NAME",
                "accelrd-probe",
            ),
            src_rack: config::text_or_env(self.src_rack, env, "ACCELRD_PROBE_SRC_RACK"),
            partner_node: config::text_or_env(self.partner_node, env, "ACCELRD_PROBE_PARTNER_NODE"),
        }
    }
}

/// A client was given no server.
#[derive(Debug, Clone, Copy, PartialEq, Eq, Structural)]
pub struct MissingServer;

impl MissingServer {
    /// The error as shown to people.
    pub fn message(&self) -> (r: &'static str)
        ensures
            r@ == "--server (or ACCELRD_PROBE_SERVER) required in client mode"@,
    {
        "--server (or ACCELRD_PROBE_SERVER) required in client mode"
    }
}

impl Resolved {
    /// The server to connect to: none for the server's side, which has
    /// nobody to wait for.
    pub fn peer(&self) -> (r: Result<Option<&str>, MissingServer>)
        ensures
            match (self.mode, self.server) {
                (ProbeMode::Server, _) => r matches Ok(s) && s is None,
                (ProbeMode::Client, Some(server)) => r matches Ok(Some(s)) && s@ == server@,
                (ProbeMode::Client, None) => r is Err,
            },
    {
        match self.mode {
            ProbeMode::Server => Ok(None),
            ProbeMode::Client => match &self.server {
                Some(s) => Ok(Some(s.as_str())),
                None => Err(MissingServer),
            },
        }
    }
}

// ---------------------------------------------------------------------
// The run
// ---------------------------------------------------------------------

/// What a run came to.
#[derive(Debug)]
pub enum Outcome {
    Measured(Summary),
    Failed(String),
}

/// The model of what a run came to.
pub enum OutcomeModel {
    Measured(SummaryModel),
    Failed(Seq<char>),
}

impl View for Outcome {
    type V = OutcomeModel;

    open spec fn view(&self) -> OutcomeModel {
        match self {
            Outcome::Measured(s) => OutcomeModel::Measured(s@),
            Outcome::Failed(m) => OutcomeModel::Failed(m@),
        }
    }
}

/// How far a run came.
#[derive(Debug)]
pub enum RunReport {
    /// The server did not accept a connection, for the given reason.
    Unreachable(String),
    /// The program could not be started, for the given reason.
    NotSpawned(String),
    /// The program ended with the given status and output.
    Exited { success: bool, status: String, stdout: Vec<u8>, stderr: Vec<u8> },
}

/// The last line of a text, trimmed at both ends before; empty where there
/// is none.
pub open spec fn last_line(s: Seq<char>) -> Seq<char> {
    let lines = scan::lines_of(scan::trim_space(s));
    if lines.len() == 0 {
        Seq::empty()
    } else {
        lines.last()
    }
}

/// What a program that ended came to.
pub open spec fn exit_outcome(
    success: bool,
    status: Seq<char>,
    stdout: Seq<char>,
    stderr: Seq<char>,
) -> OutcomeModel {
    if !success {
        OutcomeModel::Failed("ib_send_bw exit "@ + status + ": "@ + last_line(stderr))
    } else {
        match perftest::summary_of(stdout) {
            Some(s) => OutcomeModel::Measured(s),
            None => OutcomeModel::Failed("perftest output had no parseable summary row"@),
        }
    }
}

/// What a run came to.
pub open spec fn outcome_of(report: RunReport) -> OutcomeModel {
    match report {
        RunReport::Unreachable(e) => OutcomeModel::Failed("server unreachable: "@ + e@),
        RunReport::NotSpawned(e) => OutcomeModel::Failed("spawn ib_send_bw: "@ + e@),
        RunReport::Exited { success, status, stdout, stderr } => exit_outcome(
            success,
            status@,
            lossy_text(stdout@),
            lossy_text(stderr@),
        ),
    }
}

/// The text that bytes stand for, with a replacement character for what is
/// not UTF-8.
pub uninterp spec fn lossy_text(bytes: Seq<u8>) -> Seq<char>;

/// `String::from_utf8_lossy` gives the text that bytes stand for: what they
/// encode, where they are valid UTF-8.
#[verifier::external_body]
fn lossy(bytes: &[u8]) -> (r: String)
    ensures
        r@ == lossy_text(bytes@),
        utf8::valid_utf8(bytes@) ==> r@ == utf8::decode_utf8(bytes@),
{
    String::from_utf8_lossy(bytes).into_owned()
}

fn last_line_of(s: &str) -> (r: String)
    ensures
        r@ == last_line(s@),
{
    let lines = scan::lines(scan::trim(s).as_str());
    let ghost all = scan::lines_of(scan::trim_space(s@));
    assert(all.len() == lines@.len());
    if lines.len() == 0 {
        let e = String::new();
        assert(e@ =~= Seq::empty());
        e
    } else {
        assert(all.last() == lines@[lines@.len() - 1]@);
        lines[lines.len() - 1].clone()
    }
}

/// What a program that ended came to: the summary it printed, where it ended
/// well.
pub fn judge_exit(success: bool, status: &str, stdout: &str, stderr: &str) -> (r: Outcome)
    ensures
        r@ == exit_outcome(success, status@, stdout@, stderr@),
{
    if !success {
        let mut s = "ib_send_bw exit ".to_owned();
        s.append(status);
        s.append(": ");
        s.append(last_line_of(stderr).as_str());
        return Outcome::Failed(s);
    }
    match perftest::parse_required(stdout) {
        Ok(s) => Outcome::Measured(s),
        Err(e) => Outcome::Failed(e.message().to_owned()),
    }
}

/// What a run came to.
pub fn judge(report: RunReport) -> (r: Outcome)
    ensures
        r@ == outcome_of(report),
{
    match report {
        RunReport::Unreachable(e) => Outcome::Failed(
            text::join2("server unreachable: ", e.as_str()),
        ),
        RunReport::NotSpawned(e) => Outcome::Failed(text::join2("spawn ib_send_bw: ", e.as_str())),
        RunReport::Exited { success, status, stdout, stderr } => {
            let out = lossy(stdout.as_slice());
            let err = lossy(stderr.as_slice());
            judge_exit(success, status.as_str(), out.as_str(), err.as_str())
        },
    }
}

// ---------------------------------------------------------------------
// The record
// ---------------------------------------------------------------------

/// What is told of a probe. `F` is the type of the length of the run. The
/// measured figures stand as they were printed.
#[derive(Debug)]
pub struct Record<F> {
    pub side: &'static str,
    pub ok: bool,
    pub server: Option<String>,
    pub device: String,
    pub bytes: Option<u64>,
    pub bw_peak_gbps: Option<String>,
    pub bw_avg_gbps: Option<String>,
    pub msg_rate_mpps: Option<String>,
    pub duration_s: F,
    pub message: Option<String>,
    pub src_rack: Option<String>,
    pub partner_node: Option<String>,
}

/// The record of a probe of the given arguments on the given device.
pub fn build_record<F>(args: &Resolved, device: &str, duration_s: F, outcome: Outcome) -> (r: Record<F>)
    ensures
        r.side@ == args.mode.name(),
        r.server == args.server,
        r.device@ == device@,
        r.duration_s == duration_s,
        r.src_rack == args.src_rack,
        r.partner_node == args.partner_node,
        match outcome {
            Outcome::Measured(s) => {
                &&& r.ok
                &&& r.bytes == Some(s.bytes)
                &&& r.bw_peak_gbps == Some(s.bw_peak_gbps)
                &&& r.bw_avg_gbps == Some(s.bw_avg_gbps)
                &&& r.msg_rate_mpps == Some(s.msg_rate_mpps)
                &&& r.message is None
            },
            Outcome::Failed(m) => {
                &&& !r.ok
                &&& r.bytes is None
                &&& r.bw_peak_gbps is None
                &&& r.bw_avg_gbps is None
                &&& r.msg_rate_mpps is None
                &&& r.message == Some(m)
            },
        },
{
    match outcome {
        Outcome::Measured(s) => Record {
            side: args.mode.slug(),
            ok: true,
            server: text::clone_opt(&args.server),
            device: device.to_owned(),
            bytes: Some(s.bytes),
            bw_peak_gbps: Some(s.bw_peak_gbps),
            bw_avg_gbps: Some(s.bw_avg_gbps),
            msg_rate_mpps: Some(s.msg_rate_mpps),
            duration_s,
            message: None,
            src_rack: text::clone_opt(&args.src_rack),
            partner_node: text::clone_opt(&args.partner_node),
        },
        Outcome::Failed(m) => Record {
            side: args.mode.slug(),
            ok: false,
            server: text::clone_opt(&args.server),
            device: device.to_owned(),
            bytes: None,
            bw_peak_gbps: None,
            bw_avg_gbps: None,
            msg_rate_mpps: None,
            duration_s,
            message: Some(m),
            src_rack: text::clone_opt(&args.src_rack),
            partner_node: text::clone_opt(&args.partner_node),
        },
    }
}

/// One more text attribute, where there is a value for it.
pub open spec fn with_text(attrs: Seq<AttrModel>, key: Seq<char>, value: Option<Seq<char>>) -> Seq<AttrModel> {
    match value {
        Some(v) => attrs.push(telemetry::text_of(key, v)),
        None => attrs,
    }
}

/// The attributes of a probe's metrics.
pub open spec fn record_attrs<F>(r: Record<F>) -> Seq<AttrModel> {
    let head = seq![
        telemetry::text_of("side"@, r.side@),
        telemetry::text_of("device"@, r.device@),
        telemetry::flag_of("ok"@, r.ok),
    ];
    with_text(
        with_text(
            with_text(head, "server"@, text::opt_text(r.server)),
            "src_rack"@,
            text::opt_text(r.src_rack),
        ),
        "partner_node"@,
        text::opt_text(r.partner_node),
    )
}

fn push_opt(attrs: &mut Vec<Attr>, key: &str, value: &Option<String>)
    ensures
        telemetry::attr_models(final(attrs)@) == with_text(
            telemetry::attr_models(old(attrs)@),
            key@,
            text::opt_text(*value),
        ),
{
    match value {
        Some(v) => {
            telemetry::push_text(attrs, key, v.as_str());
        },
        None => {},
    }
}

/// One gauge of a probe. Where nothing was measured the gauge reads zero.
#[derive(Debug)]
pub struct Gauge<'a> {
    pub name: &'static str,
    pub unit: &'static str,
    pub description: &'static str,
    /// The figure as it was printed.
    pub value: Option<&'a str>,
}

/// The model of a gauge.
#[verifier::ext_equal]
pub struct GaugeModel {
    pub name: Seq<char>,
    pub unit: Seq<char>,
    pub description: Seq<char>,
    pub value: Option<Seq<char>>,
}

impl<'a> View for Gauge<'a> {
    type V = GaugeModel;

    open spec fn view(&self) -> GaugeModel {
        GaugeModel {
            name: self.name@,
            unit: self.unit@,
            description: self.description@,
            value: text::opt_str(self.value),
        }
    }
}

/// The models of gauges.
pub open spec fn gauge_models<'a>(v: Seq<Gauge<'a>>) -> Seq<GaugeModel> {
    v.map_values(|g: Gauge<'a>| g@)
}

/// The gauges of a probe.
pub open spec fn gauges_of<F>(r: Record<F>) -> Seq<GaugeModel> {
    seq![
        GaugeModel {
            name: "roce.probe.bandwidth.avg.gbps"@,
            unit: "Gb/s"@,
            description: "Average RoCE bandwidth between paired pods, perftest --report_gbits"@,
            value: text::opt_text(r.bw_avg_gbps),
        },
        GaugeModel {
            name: "roce.probe.bandwidth.peak.gbps"@,
            unit: "Gb/s"@,
            description: "Peak RoCE bandwidth between paired pods, perftest --report_gbits"@,
            value: text::opt_text(r.bw_peak_gbps),
        },
        GaugeModel {
            name: "roce.probe.message_rate.mpps"@,
            unit: "Mpps"@,
            description: "Message rate from perftest summary row"@,
            value: text::opt_text(r.msg_rate_mpps),
        },
    ]
}

impl<F> Record<F> {
    /// The attributes of the probe's metrics.
    pub fn attrs(&self) -> (r: Vec<Attr>)
        ensures
            telemetry::attr_models(r@) == record_attrs(*self),
    {
        let mut attrs: Vec<Attr> = Vec::new();
        assert(telemetry::attr_models(attrs@) =~= Seq::empty());
        telemetry::push_text(&mut attrs, "side", self.side);
        telemetry::push_text(&mut attrs, "device", self.device.as_str());
        telemetry::push_flag(&mut attrs, "ok", self.ok);
        assert(telemetry::attr_models(attrs@) =~= seq![
            telemetry::text_of("side"@, self.side@),
            telemetry::text_of("device"@, self.device@),
            telemetry::flag_of("ok"@, self.ok),
        ]);
        push_opt(&mut attrs, "server", &self.server);
        push_opt(&mut attrs, "src_rack", &self.src_rack);
        push_opt(&mut attrs, "partner_node", &self.partner_node);
        attrs
    }

    /// The probe's metrics.
    pub fn gauges(&self) -> (r: Vec<Gauge<'_>>)
        ensures
            gauge_models(r@) == gauges_of(*self),
    {
        let mut out: Vec<Gauge<'_>> = Vec::new();
        out.push(
            Gauge {
                name: "roce.probe.bandwidth.avg.gbps",
                unit: "Gb/s",
                description: "Average RoCE bandwidth between paired pods, perftest --report_gbits",
                value: text::as_opt_str(&self.bw_avg_gbps),
            },
        );
        out.push(
            Gauge {
                name: "roce.probe.bandwidth.peak.gbps",
                unit: "Gb/s",
                description: "Peak RoCE bandwidth between paired pods, perftest --report_gbits",
                value: text::as_opt_str(&self.bw_peak_gbps),
            },
        );
        out.push(
            Gauge {
                name: "roce.probe.message_rate.mpps",
                unit: "Mpps",
                description: "Message rate from perftest summary row",
                value: text::as_opt_str(&self.msg_rate_mpps),
            },
        );
        assert(gauge_models(out@) =~= gauges_of(*self));
        out
    }

    /// How the process fails, if it does.
    pub fn failure(&self) -> (r: Option<String>)
        ensures
            text::opt_text(r) == if self.ok {
                None
            } else {
                Some(
                    "probe failed: "@ + config::value_or(text::opt_text(self.message), "unknown"@),
                )
            },
    {
        if self.ok {
            return None;
        }
        match &self.message {
            Some(m) => Some(text::join2("probe failed: ", m.as_str())),
            None => Some(text::join2("probe failed: ", "unknown")),
        }
    }
}

} // verus!
