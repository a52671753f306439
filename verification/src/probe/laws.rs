//! What a probe runs, what it makes of the output, and what it tells.

use super::device;
use super::device::NoDevice;
use super::net;
use super::net::{Attempt, NextModel};
use super::perftest;
use super::perftest::SummaryModel;
use super::{OutcomeModel, ProbeMode, Record, RunReport};
use crate::number;
use crate::probe;
use crate::scan;
use crate::scan::CharClass;
use crate::sorting;
use crate::telemetry::laws;
use crate::telemetry::{AttrModel, ValueModel};
use crate::text;
use vstd::prelude::*;

verus! {

// ---------------------------------------------------------------------
// The program
// ---------------------------------------------------------------------

/// The one argument stands right behind the other.
pub open spec fn follows(args: Seq<Seq<char>>, flag: Seq<char>, value: Seq<char>) -> bool {
    exists|i: int| 0 <= i < args.len() - 1 && #[trigger] args[i] == flag && args[i + 1] == value
}

/// The program is told the device, the port and the length of the run, to
/// report in gigabits, and, on the client alone, where the server is.
pub proof fn law_program_is_told(server: Option<Seq<char>>, device: Seq<char>, port: nat, secs: nat)
    ensures
        ({
            let args = perftest::args_of(server, device, port, secs);
            let n = args.len() as int;
            &&& follows(args, "-d"@, device)
            &&& follows(args, "-p"@, number::decimal(port))
            &&& follows(args, "--duration"@, number::decimal(secs))
            &&& args.contains("-F"@)
            &&& args.contains("--report_gbits"@)
            &&& server is None ==> n == 8
            &&& server matches Some(s) ==> n == 9 && args[n - 1] == s
        }),
{
    let args = perftest::args_of(server, device, port, secs);
    assert(args[0] == "-F"@ && args[1] == "--report_gbits"@);
    assert(args[2] == "-d"@ && args[3] == device);
    assert(args[4] == "-p"@ && args[5] == number::decimal(port));
    assert(args[6] == "--duration"@ && args[7] == number::decimal(secs));
}

// ---------------------------------------------------------------------
// The output
// ---------------------------------------------------------------------

/// The columns of a row are the bytes of a message, the iterations, the
/// highest and the average bandwidth, and the rate of messages. A row
/// without these five numbers holds no summary.
pub proof fn law_columns_of_a_row(row: Seq<char>, words: Seq<Seq<char>>)
    requires
        scan::fields_of(row, CharClass::Space) == words,
    ensures
        match perftest::summary_in_row(row) {
            Some(s) => {
                &&& words.len() >= 5
                &&& number::bounded_of(words[0], 10, u64::MAX as nat) == Some(s.bytes)
                &&& number::bounded_of(words[1], 10, u64::MAX as nat) == Some(s.iterations)
                &&& words[2] == s.bw_peak_gbps
                &&& words[3] == s.bw_avg_gbps
                &&& words[4] == s.msg_rate_mpps
                &&& number::is_float_literal(s.bw_peak_gbps)
                &&& number::is_float_literal(s.bw_avg_gbps)
                &&& number::is_float_literal(s.msg_rate_mpps)
            },
            None => {
                ||| words.len() < 5
                ||| number::bounded_of(words[0], 10, u64::MAX as nat) is None
                ||| number::bounded_of(words[1], 10, u64::MAX as nat) is None
                ||| !number::is_float_literal(words[2])
                ||| !number::is_float_literal(words[3])
                ||| !number::is_float_literal(words[4])
            },
        },
{
}

/// The line names the columns.
pub open spec fn names_columns(line: Seq<char>) -> bool {
    scan::has_sub(line, "#bytes"@) && scan::has_sub(line, "#iterations"@) && scan::has_sub(line, "MsgRate"@)
}

/// The line is blank or a rule of dashes.
pub open spec fn is_blank_or_rule(line: Seq<char>) -> bool {
    scan::trim_space(line).len() == 0 || scan::has_prefix(scan::trim_space(line), "---"@)
}

proof fn lemma_row(lines: Seq<Seq<char>>, from: int, r: int)
    requires
        0 <= from <= r < lines.len(),
        !is_blank_or_rule(lines[r]),
        forall|k: int| from <= k < r ==> is_blank_or_rule(#[trigger] lines[k]),
    ensures
        perftest::row_from(lines, from) == Some(scan::trim_space(lines[r])),
    decreases r - from,
{
    if from < r {
        assert(is_blank_or_rule(lines[from]));
        lemma_row(lines, from + 1, r);
    }
}

proof fn lemma_skip(lines: Seq<Seq<char>>, from: int, h: int)
    requires
        0 <= from <= h <= lines.len(),
        forall|k: int| from <= k < h ==> !names_columns(#[trigger] lines[k]),
    ensures
        perftest::summary_from(lines, from) == perftest::summary_from(lines, h),
    decreases h - from,
{
    if from < h {
        assert(!names_columns(lines[from]));
        lemma_skip(lines, from + 1, h);
    }
}

/// The summary is in the first line under the one that names the columns
/// that is neither blank nor a rule.
pub proof fn law_summary_is_found(stdout: Seq<char>, lines: Seq<Seq<char>>, h: int, r: int, s: SummaryModel)
    requires
        scan::lines_of(stdout) == lines,
        0 <= h < r < lines.len(),
        names_columns(lines[h]),
        forall|k: int| 0 <= k < h ==> !names_columns(#[trigger] lines[k]),
        forall|k: int| h < k < r ==> is_blank_or_rule(#[trigger] lines[k]),
        !is_blank_or_rule(lines[r]),
        perftest::summary_in_row(scan::trim_space(lines[r])) == Some(s),
    ensures
        perftest::summary_of(stdout) == Some(s),
{
    lemma_skip(lines, 0, h);
    lemma_row(lines, h + 1, r);
}

/// Without a line that names the columns there is no summary.
pub proof fn law_no_columns_no_summary(stdout: Seq<char>, lines: Seq<Seq<char>>)
    requires
        scan::lines_of(stdout) == lines,
        forall|k: int| 0 <= k < lines.len() ==> !names_columns(#[trigger] lines[k]),
    ensures
        perftest::summary_of(stdout) is None,
{
    lemma_skip(lines, 0, lines.len() as int);
}

/// A run measured something only if the program ended well and printed a
/// summary, and then it measured that. Any other run failed.
pub proof fn law_when_a_run_measures(report: RunReport)
    ensures
        match probe::outcome_of(report) {
            OutcomeModel::Measured(s) => report matches RunReport::Exited { success, status, stdout, stderr }
                && success && perftest::summary_of(probe::lossy_text(stdout@)) == Some(s),
            OutcomeModel::Failed(_) => {
                ||| report is Unreachable
                ||| report is NotSpawned
                ||| report matches RunReport::Exited { success, status, stdout, stderr } && (!success
                    || perftest::summary_of(probe::lossy_text(stdout@)) is None)
            },
        },
        report matches RunReport::Unreachable(e) ==> probe::outcome_of(report) == OutcomeModel::Failed(
            "server unreachable: "@ + e@,
        ),
        report matches RunReport::NotSpawned(e) ==> probe::outcome_of(report) == OutcomeModel::Failed(
            "spawn ib_send_bw: "@ + e@,
        ),
{
}

/// A program that ended badly is told of with its status and with the last
/// line that it complained with, whatever else it printed.
pub proof fn law_bad_end_tells_why(status: Seq<char>, stdout: Seq<char>, stderr: Seq<char>, lines: Seq<Seq<char>>)
    requires
        scan::lines_of(scan::trim_space(stderr)) == lines,
    ensures
        lines.len() > 0 ==> probe::exit_outcome(false, status, stdout, stderr) == OutcomeModel::Failed(
            "ib_send_bw exit "@ + status + ": "@ + lines[lines.len() - 1],
        ),
        lines.len() == 0 ==> probe::exit_outcome(false, status, stdout, stderr) == OutcomeModel::Failed(
            "ib_send_bw exit "@ + status + ": "@,
        ),
{
    let head = "ib_send_bw exit "@ + status + ": "@;
    assert(head + Seq::<char>::empty() =~= head);
}

/// A program that ended well without a summary is told of as such.
pub proof fn law_missing_summary_is_told(status: Seq<char>, stdout: Seq<char>, stderr: Seq<char>)
    requires
        perftest::summary_of(stdout) is None,
    ensures
        probe::exit_outcome(true, status, stdout, stderr) == OutcomeModel::Failed(
            "perftest output had no parseable summary row"@,
        ),
{
}

// ---------------------------------------------------------------------
// The record
// ---------------------------------------------------------------------

proof fn lemma_record_keys()
    ensures
        ({
            let keys = seq!["side"@, "device"@, "ok"@, "server"@, "src_rack"@, "partner_node"@];
            forall|i: int, j: int| 0 <= i < j < keys.len() ==> #[trigger] keys[i] != #[trigger] keys[j]
        }),
{
    reveal_strlit("side");
    reveal_strlit("device");
    reveal_strlit("ok");
    reveal_strlit("server");
    reveal_strlit("src_rack");
    reveal_strlit("partner_node");
    assert("side"@.len() == 4 && "device"@.len() == 6 && "ok"@.len() == 2 && "server"@.len() == 6 && "src_rack"@.len()
        == 8 && "partner_node"@.len() == 12);
    assert("device"@[0] == 'd' && "server"@[0] == 's');
}

/// No attribute has the key.
pub open spec fn lacks(attrs: Seq<AttrModel>, key: Seq<char>) -> bool {
    forall|i: int| 0 <= i < attrs.len() ==> (#[trigger] attrs[i]).key != key
}

/// The attributes say of a thing what is known of it, if anything.
pub open spec fn tells_if_known(attrs: Seq<AttrModel>, key: Seq<char>, value: Option<String>) -> bool {
    match value {
        Some(s) => laws::carries(attrs, key, ValueModel::Text(s@)),
        None => lacks(attrs, key),
    }
}

/// The metrics of a probe say which side it was, on which device, whether it
/// went well, and what is known of the server, the rack and the partner.
pub proof fn law_record_is_attributed<F>(r: Record<F>)
    ensures
        laws::carries(probe::record_attrs(r), "side"@, ValueModel::Text(r.side@)),
        laws::carries(probe::record_attrs(r), "device"@, ValueModel::Text(r.device@)),
        laws::carries(probe::record_attrs(r), "ok"@, ValueModel::Flag(r.ok)),
        tells_if_known(probe::record_attrs(r), "server"@, r.server),
        tells_if_known(probe::record_attrs(r), "src_rack"@, r.src_rack),
        tells_if_known(probe::record_attrs(r), "partner_node"@, r.partner_node),
{
    lemma_record_keys();
    let keys = seq!["side"@, "device"@, "ok"@, "server"@, "src_rack"@, "partner_node"@];
    assert(keys[0] != keys[1] && keys[0] != keys[2] && keys[0] != keys[3] && keys[0] != keys[4] && keys[0]
        != keys[5]);
    assert(keys[1] != keys[2] && keys[1] != keys[3] && keys[1] != keys[4] && keys[1] != keys[5]);
    assert(keys[2] != keys[3] && keys[2] != keys[4] && keys[2] != keys[5]);
    assert(keys[3] != keys[4] && keys[3] != keys[5] && keys[4] != keys[5]);
    let a = probe::record_attrs(r);
    assert(a[0].key == "side"@ && a[1].key == "device"@ && a[2].key == "ok"@);
    let i: int = 3 + if r.server is Some {
        1int
    } else {
        0
    };
    let j: int = i + if r.src_rack is Some {
        1int
    } else {
        0
    };
    if r.server is Some {
        assert(a[3].key == "server"@);
    }
    if r.src_rack is Some {
        assert(a[i].key == "src_rack"@);
    }
    if r.partner_node is Some {
        assert(a[j].key == "partner_node"@);
    }
}

/// The gauges report the average bandwidth, the highest bandwidth and the
/// rate of messages, each under its own name.
pub proof fn law_gauges_of_a_record<F>(r: Record<F>, i: int)
    requires
        0 <= i < probe::gauges_of(r).len(),
    ensures
        probe::gauges_of(r).len() == 3,
        ({
            let g = probe::gauges_of(r)[i];
            &&& g.name == "roce.probe.bandwidth.avg.gbps"@ ==> g.value == text::opt_text(r.bw_avg_gbps) && g.unit
                == "Gb/s"@ && g.description
                == "Average RoCE bandwidth between paired pods, perftest --report_gbits"@
            &&& g.name == "roce.probe.bandwidth.peak.gbps"@ ==> g.value == text::opt_text(r.bw_peak_gbps)
                && g.unit == "Gb/s"@ && g.description
                == "Peak RoCE bandwidth between paired pods, perftest --report_gbits"@
            &&& g.name == "roce.probe.message_rate.mpps"@ ==> g.value == text::opt_text(r.msg_rate_mpps) && g.unit
                == "Mpps"@ && g.description == "Message rate from perftest summary row"@
            &&& g.name == "roce.probe.bandwidth.avg.gbps"@ || g.name == "roce.probe.bandwidth.peak.gbps"@ || g.name
                == "roce.probe.message_rate.mpps"@
        }),
        exists|k: int|
            0 <= k < 3 && (#[trigger] probe::gauges_of(r)[k]).name == "roce.probe.bandwidth.avg.gbps"@,
        exists|k: int|
            0 <= k < 3 && (#[trigger] probe::gauges_of(r)[k]).name == "roce.probe.bandwidth.peak.gbps"@,
        exists|k: int|
            0 <= k < 3 && (#[trigger] probe::gauges_of(r)[k]).name == "roce.probe.message_rate.mpps"@,
{
    reveal_strlit("roce.probe.bandwidth.avg.gbps");
    reveal_strlit("roce.probe.bandwidth.peak.gbps");
    reveal_strlit("roce.probe.message_rate.mpps");
    assert("roce.probe.bandwidth.avg.gbps"@.len() == 29 && "roce.probe.bandwidth.peak.gbps"@.len() == 30
        && "roce.probe.message_rate.mpps"@.len() == 28);
    let g = probe::gauges_of(r);
    assert(g[0].name == "roce.probe.bandwidth.avg.gbps"@);
    assert(g[1].name == "roce.probe.bandwidth.peak.gbps"@);
    assert(g[2].name == "roce.probe.message_rate.mpps"@);
}

/// What the sides of a probe are called.
pub proof fn law_names_of_sides(m: ProbeMode)
    ensures
        m == ProbeMode::Server ==> m.name() == "server"@,
        m == ProbeMode::Client ==> m.name() == "client"@,
{
}

// ---------------------------------------------------------------------
// Devices and tries
// ---------------------------------------------------------------------

/// A device that is asked for is taken. Otherwise it is the first by name of
/// those that there are.
pub proof fn law_device_of_a_probe(explicit: Option<Seq<char>>, found: Option<Seq<Seq<char>>>)
    ensures
        explicit matches Some(d) ==> device::device_of(explicit, found) == Ok::<Seq<char>, NoDevice>(d),
        explicit is None && found is None ==> device::device_of(explicit, found) == Err::<Seq<char>, NoDevice>(
            NoDevice::Unreadable,
        ),
        explicit is None && found is Some && found->0.len() == 0 ==> device::device_of(explicit, found) == Err::<
            Seq<char>,
            NoDevice,
        >(NoDevice::Absent),
        explicit is None && found is Some && found->0.len() > 0 ==> (device::device_of(explicit, found) matches Ok(d)
            && found->0.contains(d) && forall|i: int|
            0 <= i < found->0.len() ==> !text::text_lt(#[trigger] found->0[i], d)),
{
    if explicit is None && found is Some && found->0.len() > 0 {
        let names = found->0;
        let before = sorting::text_before();
        let sorted = sorting::sorted_texts(names);
        sorting::lemma_text_ranking();
        sorting::lemma_arranged_same_elements(names, before);
        sorting::lemma_arranged_in_order(names, before);
        let d = sorted[0];
        assert(sorted.contains(d));
        sorting::lemma_arranged_contains(names, before, d);
        assert forall|i: int| 0 <= i < names.len() implies !text::text_lt(#[trigger] names[i], d) by {
            assert(names.contains(names[i]));
            sorting::lemma_arranged_contains(names, before, names[i]);
            let k = choose|k: int| 0 <= k < sorted.len() && sorted[k] == names[i];
            if k > 0 {
                assert(!before(sorted[k], sorted[0]));
            } else {
                text::lemma_text_lt_irreflexive(d);
            }
        }
    }
}

/// A server that accepts is ready; one that does not is tried again after
/// the pause, and then after twice that, but two seconds at most; and past
/// the deadline the wait is given up.
pub proof fn law_tries(host: Seq<char>, port: nat, backoff: nat)
    ensures
        net::next_of(host, port, backoff, Attempt::Connected) == NextModel::Ready,
        net::next_of(host, port, backoff, Attempt::Late) == NextModel::GiveUp(
            "timeout waiting for "@ + host + ":"@ + number::decimal(port) + " to accept TCP"@,
        ),
        match net::next_of(host, port, backoff, Attempt::Refused) {
            NextModel::Retry { pause_ms, backoff_ms } => {
                &&& pause_ms == backoff
                &&& backoff <= 1000 ==> backoff_ms == backoff + backoff
                &&& backoff > 1000 ==> backoff_ms == 2000
            },
            _ => false,
        },
{
}

// ---------------------------------------------------------------------
// Models
// ---------------------------------------------------------------------

/// The model of a summary says of each thing what the summary says of it.
pub proof fn law_model_of_a_summary(s: perftest::Summary)
    ensures
        s@.bytes == s.bytes,
        s@.iterations == s.iterations,
        s@.bw_peak_gbps == s.bw_peak_gbps@,
        s@.bw_avg_gbps == s.bw_avg_gbps@,
        s@.msg_rate_mpps == s.msg_rate_mpps@,
{
}

/// The model of a gauge says of each thing what the gauge says of it.
pub proof fn law_model_of_a_gauge<'a>(g: probe::Gauge<'a>)
    ensures
        g@.name == g.name@,
        g@.unit == g.unit@,
        g@.description == g.description@,
        g@.value == text::opt_str(g.value),
{
}

/// The models of what a run came to and of what to do next are of the same
/// kind as what they are models of.
pub proof fn law_models_of_steps(o: probe::Outcome, n: net::Next)
    ensures
        o matches probe::Outcome::Measured(s) ==> o@ == OutcomeModel::Measured(s@),
        o matches probe::Outcome::Failed(m) ==> o@ == OutcomeModel::Failed(m@),
        n is Ready ==> n@ == NextModel::Ready,
        n matches net::Next::GiveUp(s) ==> n@ == NextModel::GiveUp(s@),
        n matches net::Next::Retry { pause_ms, backoff_ms } ==> n@ == (NextModel::Retry {
            pause_ms: pause_ms as nat,
            backoff_ms: backoff_ms as nat,
        }),
{
}


} // verus!
