//! Calling `ib_send_bw`, and reading the summary that it prints. The summary
//! is the row after a header with `#bytes`, `#iterations` and `MsgRate` in
//! it. Bandwidths are asked for in gigabits per second, so that their unit
//! is the same for every version.

use crate::number;
use crate::scan;
use crate::scan::CharClass;
use crate::text;
use vstd::prelude::*;

verus! {

/// The summary of a run. The measured figures stand as they were printed.
#[derive(Debug)]
pub struct Summary {
    pub bytes: u64,
    pub iterations: u64,
    pub bw_peak_gbps: String,
    pub bw_avg_gbps: String,
    pub msg_rate_mpps: String,
}

/// The model of a summary.
#[verifier::ext_equal]
pub struct SummaryModel {
    pub bytes: nat,
    pub iterations: nat,
    pub bw_peak_gbps: Seq<char>,
    pub bw_avg_gbps: Seq<char>,
    pub msg_rate_mpps: Seq<char>,
}

impl View for Summary {
    type V = SummaryModel;

    open spec fn view(&self) -> SummaryModel {
        SummaryModel {
            bytes: self.bytes as nat,
            iterations: self.iterations as nat,
            bw_peak_gbps: self.bw_peak_gbps@,
            bw_avg_gbps: self.bw_avg_gbps@,
            msg_rate_mpps: self.msg_rate_mpps@,
        }
    }
}

/// A program with its arguments.
#[derive(Debug)]
pub struct CommandLine {
    pub program: &'static str,
    pub args: Vec<String>,
}

/// The arguments of one side of a probe. The client's end with the server.
///
/// `-F` has the run go on where the CPU frequency governor is not set for
/// performance, which containers mostly do not show; `-d` and `-p` pin the
/// device and the port, which both sides have to agree on; `--duration`
/// bounds the time of the run on a slow link.
pub open spec fn args_of(server: Option<Seq<char>>, device: Seq<char>, port: nat, secs: nat) -> Seq<Seq<char>> {
    let common = seq![
        "-F"@,
        "--report_gbits"@,
        "-d"@,
        device,
        "-p"@,
        number::decimal(port),
        "--duration"@,
        number::decimal(secs),
    ];
    match server {
        Some(s) => common.push(s),
        None => common,
    }
}

/// The command of one side of a probe: that of the client where `server` is
/// given, else that of the server.
pub fn build_cmd(server: Option<&str>, device: &str, port: u16, duration_secs: u64) -> (r: CommandLine)
    ensures
        r.program@ == "ib_send_bw"@,
        text::texts(r.args@) == args_of(
            text::opt_str(server),
            device@,
            port as nat,
            duration_secs as nat,
        ),
{
    let mut args: Vec<String> = Vec::new();
    args.push("-F".to_owned());
    args.push("--report_gbits".to_owned());
    args.push("-d".to_owned());
    args.push(device.to_owned());
    args.push("-p".to_owned());
    args.push(number::dec(port as u64));
    args.push("--duration".to_owned());
    args.push(number::dec(duration_secs));
    match server {
        Some(s) => {
            args.push(s.to_owned());
        },
        None => {},
    }
    assert(text::texts(args@) =~= args_of(
        text::opt_str(server),
        device@,
        port as nat,
        duration_secs as nat,
    ));
    CommandLine { program: "ib_send_bw", args }
}

/// The line heads the summary.
pub open spec fn heads_summary(line: Seq<char>) -> bool {
    scan::has_sub(line, "#bytes"@) && scan::has_sub(line, "#iterations"@) && scan::has_sub(line, "MsgRate"@)
}

fn is_header(line: &str) -> (r: bool)
    ensures
        r == heads_summary(line@),
{
    scan::contains(line, "#bytes") && scan::contains(line, "#iterations") && scan::contains(line, "MsgRate")
}

/// The summary in a row: two whole numbers and three floating-point ones.
/// What follows them does not count.
pub open spec fn summary_in_row(row: Seq<char>) -> Option<SummaryModel> {
    let parts = scan::fields_of(row, CharClass::Space);
    if parts.len() < 5 {
        None
    } else {
        match (
            number::bounded_of(parts[0], 10, u64::MAX as nat),
            number::bounded_of(parts[1], 10, u64::MAX as nat),
        ) {
            (Some(bytes), Some(iterations)) => if number::is_float_literal(parts[2])
                && number::is_float_literal(parts[3]) && number::is_float_literal(parts[4]) {
                Some(
                    SummaryModel {
                        bytes,
                        iterations,
                        bw_peak_gbps: parts[2],
                        bw_avg_gbps: parts[3],
                        msg_rate_mpps: parts[4],
                    },
                )
            } else {
                None
            },
            _ => None,
        }
    }
}

fn parse_row(row: &str) -> (r: Option<Summary>)
    ensures
        match r {
            Some(s) => summary_in_row(row@) == Some(s@),
            None => summary_in_row(row@) is None,
        },
{
    let parts = scan::fields(row, CharClass::Space);
    let ghost all = scan::fields_of(row@, CharClass::Space);
    assert(all.len() == parts@.len());
    if parts.len() < 5 {
        return None;
    }
    assert(forall|i: int| 0 <= i < 5 ==> #[trigger] all[i] == parts@[i]@);
    match (number::parse_u64(parts[0].as_str()), number::parse_u64(parts[1].as_str())) {
        (Some(bytes), Some(iterations)) => if number::float_literal(parts[2].as_str())
            && number::float_literal(parts[3].as_str()) && number::float_literal(parts[4].as_str()) {
            Some(
                Summary {
                    bytes,
                    iterations,
                    bw_peak_gbps: parts[2].clone(),
                    bw_avg_gbps: parts[3].clone(),
                    msg_rate_mpps: parts[4].clone(),
                },
            )
        } else {
            None
        },
        _ => None,
    }
}

/// The line is empty or a rule.
pub open spec fn is_filler(trimmed: Seq<char>) -> bool {
    trimmed.len() == 0 || scan::has_prefix(trimmed, "---"@)
}

/// The first line from line `i` on that is not filler, trimmed.
pub open spec fn row_from(lines: Seq<Seq<char>>, i: int) -> Option<Seq<char>>
    decreases lines.len() - i,
{
    if i < 0 || i >= lines.len() {
        None
    } else if is_filler(scan::trim_space(lines[i])) {
        row_from(lines, i + 1)
    } else {
        Some(scan::trim_space(lines[i]))
    }
}

/// The summary under a header in line `i`, if it is one.
pub open spec fn summary_under(lines: Seq<Seq<char>>, i: int) -> Option<SummaryModel> {
    if heads_summary(lines[i]) {
        match row_from(lines, i + 1) {
            Some(row) => summary_in_row(row),
            None => None,
        }
    } else {
        None
    }
}

/// The first summary under a header from line `i` on.
pub open spec fn summary_from(lines: Seq<Seq<char>>, i: int) -> Option<SummaryModel>
    decreases lines.len() - i,
{
    if i < 0 || i >= lines.len() {
        None
    } else {
        match summary_under(lines, i) {
            Some(s) => Some(s),
            None => summary_from(lines, i + 1),
        }
    }
}

/// The summary in the output of a run.
pub open spec fn summary_of(stdout: Seq<char>) -> Option<SummaryModel> {
    summary_from(scan::lines_of(stdout), 0)
}

fn next_row(lines: &Vec<String>, from: usize) -> (r: Option<String>)
    requires
        from <= lines@.len(),
    ensures
        text::opt_text(r) == row_from(text::texts(lines@), from as int),
{
    let ghost all = text::texts(lines@);
    let mut i: usize = from;
    while i < lines.len()
        invariant
            all == text::texts(lines@),
            i <= lines@.len(),
            row_from(all, i as int) == row_from(all, from as int),
        decreases lines@.len() - i,
    {
        assert(all[i as int] == lines@[i as int]@);
        let t = scan::trim(lines[i].as_str());
        if !(text::is_empty(t.as_str()) || scan::starts_with(t.as_str(), "---")) {
            return Some(t);
        }
        i = i + 1;
    }
    None
}

/// The summary in the output of a run: that of the first header with a row
/// that can be read under it. There is none where the run ended early.
pub fn parse(stdout: &str) -> (r: Option<Summary>)
    ensures
        match r {
            Some(s) => summary_of(stdout@) == Some(s@),
            None => summary_of(stdout@) is None,
        },
{
    let lines = scan::lines(stdout);
    let ghost all = scan::lines_of(stdout@);
    let mut i: usize = 0;
    assert(all.len() == lines@.len());
    while i < lines.len()
        invariant
            all == text::texts(lines@),
            all == scan::lines_of(stdout@),
            i <= lines@.len(),
            summary_from(all, i as int) == summary_from(all, 0),
        decreases lines@.len() - i,
    {
        assert(all[i as int] == lines@[i as int]@);
        if is_header(lines[i].as_str()) {
            match next_row(&lines, i + 1) {
                Some(row) => {
                    match parse_row(row.as_str()) {
                        Some(s) => {
                            return Some(s);
                        },
                        None => {},
                    }
                },
                None => {},
            }
        }
        i = i + 1;
    }
    None
}

/// The output holds no summary.
#[derive(Debug, Clone, Copy, PartialEq, Eq, Structural)]
pub struct NoSummary;

impl NoSummary {
    /// The error as shown to people.
    pub fn message(&self) -> (r: &'static str)
        ensures
            r@ == "perftest output had no parseable summary row"@,
    {
        "perftest output had no parseable summary row"
    }
}

/// The summary in the output of a run, or an error.
pub fn parse_required(stdout: &str) -> (r: Result<Summary, NoSummary>)
    ensures
        match r {
            Ok(s) => summary_of(stdout@) == Some(s@),
            Err(_) => summary_of(stdout@) is None,
        },
{
    match parse(stdout) {
        Some(s) => Ok(s),
        None => Err(NoSummary),
    }
}

} // verus!
