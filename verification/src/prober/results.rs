//! The record that a probe pod prints: one line of JSON among its logs.

use crate::scan;
use crate::text;
use vstd::prelude::*;

verus! {

/// What a probe pod tells of its probe. `F` is the type of the measured
/// figures.
#[derive(Debug)]
pub struct ProbeRecord<F> {
    pub side: String,
    pub ok: bool,
    pub server: Option<String>,
    pub device: String,
    pub bytes: Option<u64>,
    pub bw_peak_gbps: Option<F>,
    pub bw_avg_gbps: Option<F>,
    pub msg_rate_mpps: Option<F>,
    pub duration_s: F,
    pub message: Option<String>,
    pub src_rack: Option<String>,
    pub partner_node: Option<String>,
}

/// A line that may hold a JSON object.
pub open spec fn looks_like_object(line: Seq<char>) -> bool {
    scan::has_prefix(line, "{"@) && scan::has_suffix(line, "}"@)
}

/// The trimmed lines that may hold a JSON object.
pub open spec fn candidates_of(lines: Seq<Seq<char>>) -> Seq<Seq<char>>
    decreases lines.len(),
{
    if lines.len() == 0 {
        Seq::empty()
    } else {
        let head = candidates_of(lines.drop_last());
        let t = scan::trim_space(lines.last());
        if looks_like_object(t) {
            head.push(t)
        } else {
            head
        }
    }
}

/// The trimmed lines of `stdout` that may hold a JSON object.
pub fn candidates(stdout: &str) -> (r: Vec<String>)
    ensures
        text::texts(r@) == candidates_of(scan::lines_of(stdout@)),
{
    let lines = scan::lines(stdout);
    let ghost all = scan::lines_of(stdout@);
    let mut out: Vec<String> = Vec::new();
    let mut i: usize = 0;
    assert(text::texts(out@) =~= Seq::empty());
    assert(all.len() == lines@.len());
    while i < lines.len()
        invariant
            i <= lines@.len(),
            all == text::texts(lines@),
            text::texts(out@) == candidates_of(all.take(i as int)),
        decreases lines@.len() - i,
    {
        proof {
            let t = all.take(i + 1);
            assert(t.drop_last() =~= all.take(i as int));
            assert(t.last() == lines@[i as int]@);
        }
        let t = scan::trim(lines[i].as_str());
        if scan::starts_with(t.as_str(), "{") && scan::ends_with(t.as_str(), "}") {
            let ghost before = text::texts(out@);
            let ghost m = t@;
            out.push(t);
            assert(text::texts(out@) =~= before.push(m));
        }
        i = i + 1;
    }
    assert(all.take(all.len() as int) =~= all);
    out
}

/// No line of the output holds a record.
#[derive(Debug, Clone, Copy, PartialEq, Eq, Structural)]
pub struct NoRecord;

impl NoRecord {
    /// The error as shown to people.
    pub fn message(&self) -> (r: &'static str)
        ensures
            r@ == "parse probe stdout"@,
    {
        "parse probe stdout"
    }
}

/// `from_json` may answer `r` for a line with the given text.
pub open spec fn may_read<F, P: Fn(&String) -> Option<ProbeRecord<F>>>(
    from_json: P,
    line: Seq<char>,
    r: Option<ProbeRecord<F>>,
) -> bool {
    exists|s: String| s@ == line && #[trigger] from_json.ensures((&s,), r)
}

/// The record in `stdout`: what `from_json` reads from the first line that
/// it can read. The lines that do not look like a JSON object are not put to
/// it.
pub fn parse<F, P: Fn(&String) -> Option<ProbeRecord<F>>>(stdout: &str, from_json: P) -> (r: Result<
    ProbeRecord<F>,
    NoRecord,
>)
    requires
        forall|s: String| #[trigger] from_json.requires((&s,)),
    ensures
        ({
            let lines = candidates_of(scan::lines_of(stdout@));
            match r {
                Ok(rec) => exists|i: int|
                    0 <= i < lines.len() && #[trigger] may_read(from_json, lines[i], Some(rec)) && forall|k: int|
                        0 <= k < i ==> #[trigger] may_read(from_json, lines[k], None),
                Err(_) => forall|k: int| 0 <= k < lines.len() ==> #[trigger] may_read(from_json, lines[k], None),
            }
        }),
{
    let lines = candidates(stdout);
    let ghost all = candidates_of(scan::lines_of(stdout@));
    let mut i: usize = 0;
    assert(all.len() == lines@.len());
    while i < lines.len()
        invariant
            forall|s: String| #[trigger] from_json.requires((&s,)),
            i <= lines@.len(),
            all == candidates_of(scan::lines_of(stdout@)),
            all == text::texts(lines@),
            forall|k: int| 0 <= k < i ==> #[trigger] may_read(from_json, all[k], None),
        decreases lines@.len() - i,
    {
        assert(all[i as int] == lines@[i as int]@);
        match from_json(&lines[i]) {
            Some(rec) => {
                assert(may_read(from_json, all[i as int], Some(rec)));
                return Ok(rec);
            },
            None => {
                assert(may_read(from_json, all[i as int], None));
            },
        }
        i = i + 1;
    }
    Err(NoRecord)
}

} // verus!
