//! The preflight cycle: which checks run on which accelerators, what is
//! recorded of each, and what the cycle comes to.

use super::{Attr, AttrModel, Point};
use crate::number;
use crate::preflight;
use crate::preflight::{Check, CheckOutcome, NodeReadiness, PreflightCheck, Status};
use crate::scan;
use crate::sensors;
use crate::sensors::Accelerator;
use crate::telemetry;
use crate::telemetry::live;
use crate::text;
use crate::textmap;
use crate::topology::labels::LabelSet;
use crate::topology::NodeTopology;
use vstd::prelude::*;

verus! {

/// What the preflight loop works on.
pub struct PreflightInputs {
    pub checks: Vec<Check>,
    pub accelerators: Vec<Accelerator>,
    pub topology: NodeTopology,
    pub interval_secs: u64,
    pub once: bool,
    /// The labels that do not depend on the checks.
    pub label_base: LabelSet,
}

// ---------------------------------------------------------------------
// The matrix
// ---------------------------------------------------------------------

/// One pair comes before another: by check, then by accelerator.
pub open spec fn pair_lt(a: (usize, usize), b: (usize, usize)) -> bool {
    a.0 < b.0 || (a.0 == b.0 && a.1 < b.1)
}

/// The pairs `r` are in order, each is a check and an accelerator that it
/// may apply to, and what is left out are pairs that it may not apply to.
pub open spec fn is_matrix<C: PreflightCheck>(
    checks: Seq<C>,
    accels: Seq<Accelerator>,
    r: Seq<(usize, usize)>,
) -> bool {
    &&& forall|i: int, j: int| 0 <= i < j < r.len() ==> pair_lt(#[trigger] r[i], #[trigger] r[j])
    &&& forall|i: int|
        0 <= i < r.len() ==> (#[trigger] r[i]).0 < checks.len() && r[i].1 < accels.len() && call_ensures(
            C::applies_to,
            (&checks[r[i].0 as int], &accels[r[i].1 as int]),
            true,
        )
    &&& forall|c: usize, a: usize|
        c < checks.len() && a < accels.len() && !#[trigger] r.contains((c, a)) ==> call_ensures(
            C::applies_to,
            (&checks[c as int], &accels[a as int]),
            false,
        )
}

/// The pairs of checks and accelerators to run, check by check.
pub fn matrix<C: PreflightCheck>(checks: &Vec<C>, accels: &Vec<Accelerator>) -> (r: Vec<(usize, usize)>)
    ensures
        is_matrix(checks@, accels@, r@),
{
    let mut out: Vec<(usize, usize)> = Vec::new();
    let mut c: usize = 0;
    while c < checks.len()
        invariant
            c <= checks@.len(),
            forall|i: int, j: int| 0 <= i < j < out@.len() ==> pair_lt(#[trigger] out@[i], #[trigger] out@[j]),
            forall|i: int|
                0 <= i < out@.len() ==> (#[trigger] out@[i]).0 < c && out@[i].1 < accels@.len() && call_ensures(
                    C::applies_to,
                    (&checks@[out@[i].0 as int], &accels@[out@[i].1 as int]),
                    true,
                ),
            forall|d: usize, b: usize|
                d < c && b < accels@.len() && !#[trigger] out@.contains((d, b)) ==> call_ensures(
                    C::applies_to,
                    (&checks@[d as int], &accels@[b as int]),
                    false,
                ),
        decreases checks@.len() - c,
    {
        let mut a: usize = 0;
        while a < accels.len()
            invariant
                c < checks@.len(),
                a <= accels@.len(),
                forall|i: int, j: int|
                    0 <= i < j < out@.len() ==> pair_lt(#[trigger] out@[i], #[trigger] out@[j]),
                forall|i: int|
                    0 <= i < out@.len() ==> (#[trigger] out@[i]).0 <= c && out@[i].1 < accels@.len() && (out@[i].0
                        == c ==> out@[i].1 < a) && call_ensures(
                        C::applies_to,
                        (&checks@[out@[i].0 as int], &accels@[out@[i].1 as int]),
                        true,
                    ),
                forall|d: usize, b: usize|
                    (d < c || (d == c && b < a)) && b < accels@.len() && !#[trigger] out@.contains((d, b))
                        ==> call_ensures(C::applies_to, (&checks@[d as int], &accels@[b as int]), false),
            decreases accels@.len() - a,
        {
            let ghost before = out@;
            let applies = checks[c].applies_to(&accels[a]);
            if applies {
                out.push((c, a));
                proof {
                    assert(out@[before.len() as int] == (c, a));
                    assert forall|d: usize, b: usize|
                        (d < c || (d == c && b < a + 1)) && b < accels@.len() && !#[trigger] out@.contains(
                            (d, b),
                        ) implies call_ensures(C::applies_to, (&checks@[d as int], &accels@[b as int]), false) by {
                        if before.contains((d, b)) {
                            let i = choose|i: int| 0 <= i < before.len() && before[i] == (d, b);
                            assert(out@[i] == (d, b));
                        }
                    }
                }
            }
            a = a + 1;
        }
        c = c + 1;
    }
    out
}

// ---------------------------------------------------------------------
// Records
// ---------------------------------------------------------------------

/// What is recorded of one run of a check.
pub struct CheckPoints {
    /// The attributes of the run's duration and of its pass gauge.
    pub attrs: Vec<Attr>,
    /// The pass gauge: one for a pass, zero for a warning or a failure, and
    /// nothing for a run that was skipped.
    pub pass: Option<u64>,
    /// What the check measured.
    pub observations: Vec<Point>,
}

/// The attributes of a run.
pub open spec fn run_attrs(a: Accelerator, check: Seq<char>, status: Status) -> Seq<AttrModel> {
    telemetry::base_of(a).push(telemetry::text_of("name"@, check)).push(
        telemetry::text_of("status"@, status.name()),
    )
}

/// The pass gauge of a status.
pub open spec fn pass_gauge(status: Status) -> Option<u64> {
    match status {
        Status::Skipped => None,
        Status::Pass => Some(1),
        _ => Some(0),
    }
}

/// What is recorded of the run of `check` on `accel`.
pub fn record(check: &str, accel: &Accelerator, outcome: &CheckOutcome) -> (r: CheckPoints)
    ensures
        telemetry::attr_models(r.attrs@) == run_attrs(*accel, check@, outcome.status),
        r.pass == pass_gauge(outcome.status),
        telemetry::point_models(r.observations@) == live::points_with(
            telemetry::base_of(*accel).push(telemetry::text_of("check"@, check@)),
            sensors::models(outcome.measurements@),
        ),
{
    let mut attrs = telemetry::base_attrs(accel);
    telemetry::push_text(&mut attrs, "name", check);
    telemetry::push_text(&mut attrs, "status", outcome.status.slug());
    let pass: Option<u64> = match outcome.status {
        Status::Skipped => None,
        Status::Pass => Some(1),
        _ => Some(0),
    };
    let ghost head = telemetry::base_of(*accel).push(telemetry::text_of("check"@, check@));
    let ghost all = live::points_with(head, sensors::models(outcome.measurements@));
    let mut observations: Vec<Point> = Vec::new();
    let mut i: usize = 0;
    assert(telemetry::point_models(observations@) =~= all.take(0));
    while i < outcome.measurements.len()
        invariant
            i <= outcome.measurements@.len(),
            head == telemetry::base_of(*accel).push(telemetry::text_of("check"@, check@)),
            all == live::points_with(head, sensors::models(outcome.measurements@)),
            all.len() == outcome.measurements@.len(),
            telemetry::point_models(observations@) == all.take(i as int),
        decreases outcome.measurements@.len() - i,
    {
        let ghost so_far = telemetry::point_models(observations@);
        let mut own = telemetry::base_attrs(accel);
        telemetry::push_text(&mut own, "check", check);
        let p = telemetry::point(own, &outcome.measurements[i]);
        let ghost model = p@;
        observations.push(p);
        i = i + 1;
        proof {
            assert(all[i - 1] == model);
            assert(telemetry::point_models(observations@) =~= so_far.push(model));
            assert(all.take(i as int) =~= all.take(i - 1).push(all[i - 1]));
        }
    }
    assert(all.take(all.len() as int) =~= all);
    CheckPoints { attrs, pass, observations }
}

// ---------------------------------------------------------------------
// The cycle
// ---------------------------------------------------------------------

/// A run of a check: the check, the accelerator's minor and the status.
pub struct CheckRun {
    pub check: String,
    pub drm_index: u32,
    pub status: Status,
}

/// What a cycle came to.
#[derive(Debug, Clone, Copy, PartialEq, Eq, Structural)]
pub struct CycleResult {
    pub inference: NodeReadiness,
    pub training: NodeReadiness,
    pub ran: usize,
    pub failed: usize,
}

/// The statuses of runs.
pub open spec fn statuses(runs: Seq<CheckRun>) -> Seq<Status> {
    runs.map_values(|r: CheckRun| r.status)
}

/// The runs that failed or warned, each as `check@minor`.
pub open spec fn failed_runs(runs: Seq<CheckRun>) -> Seq<Seq<char>>
    decreases runs.len(),
{
    if runs.len() == 0 {
        Seq::empty()
    } else {
        let head = failed_runs(runs.drop_last());
        let r = runs.last();
        if r.status == Status::Fail || r.status == Status::Warn {
            head.push(r.check@ + "@"@ + number::decimal(r.drm_index as nat))
        } else {
            head
        }
    }
}

/// The labels with the readiness in them.
pub open spec fn ready_labels(base: Map<Seq<char>, Seq<char>>, readiness: NodeReadiness) -> Map<
    Seq<char>,
    Seq<char>,
> {
    base.insert("accel-ready.lunnova.dev/inference"@, readiness.label()).insert(
        "accel-ready.lunnova.dev/training"@,
        readiness.label(),
    )
}

/// The annotations with the time of the cycle and the failed runs in them.
pub open spec fn ready_annotations(
    base: Map<Seq<char>, Seq<char>>,
    now: Seq<char>,
    failed: Seq<Seq<char>>,
) -> Map<Seq<char>, Seq<char>> {
    let checked = base.insert("accel-ready.lunnova.dev/last-check"@, now);
    if failed.len() > 0 {
        checked.insert("accel-ready.lunnova.dev/failed"@, scan::joined(failed, ","@))
    } else {
        checked
    }
}

fn list_failed(runs: &Vec<CheckRun>) -> (r: Vec<String>)
    ensures
        text::texts(r@) == failed_runs(runs@),
{
    let mut out: Vec<String> = Vec::new();
    assert(text::texts(out@) =~= Seq::empty());
    let mut i: usize = 0;
    while i < runs.len()
        invariant
            i <= runs@.len(),
            text::texts(out@) == failed_runs(runs@.take(i as int)),
        decreases runs@.len() - i,
    {
        proof {
            let t = runs@.take(i + 1);
            assert(t.drop_last() =~= runs@.take(i as int));
            assert(t.last() == runs@[i as int]);
        }
        if runs[i].status == Status::Fail || runs[i].status == Status::Warn {
            let ghost before = text::texts(out@);
            let name = text::join3(runs[i].check.as_str(), "@", number::dec(runs[i].drm_index as u64).as_str());
            let ghost n = name@;
            out.push(name);
            assert(text::texts(out@) =~= before.push(n));
        }
        i = i + 1;
    }
    assert(runs@.take(runs@.len() as int) =~= runs@);
    out
}

fn list_statuses(runs: &Vec<CheckRun>) -> (r: Vec<Status>)
    ensures
        r@ == statuses(runs@),
{
    let mut out: Vec<Status> = Vec::new();
    let mut i: usize = 0;
    while i < runs.len()
        invariant
            i <= runs@.len(),
            out@ == statuses(runs@).take(i as int),
        decreases runs@.len() - i,
    {
        out.push(runs[i].status);
        i = i + 1;
        assert(out@ =~= statuses(runs@).take(i as int));
    }
    assert(statuses(runs@).take(i as int) =~= statuses(runs@));
    out
}

fn put(m: &mut textmap::TextMap<String>, key: &str, value: String)
    ensures
        textmap::text_values(*final(m)) == textmap::text_values(*old(m)).insert(key@, value@),
{
    let ghost before = textmap::text_values(*m);
    let ghost v = value@;
    m.insert(key.to_owned(), value);
    assert(textmap::text_values(*m) =~= before.insert(key@, v));
}

/// What the runs of a cycle that ended at `now` come to, and the labels to
/// publish. Inference and training share their verdict.
pub fn run_cycle(runs: &Vec<CheckRun>, label_base: &LabelSet, now: String) -> (r: (CycleResult, LabelSet))
    ensures
        r.0 == (CycleResult {
            inference: preflight::verdict(statuses(runs@)),
            training: preflight::verdict(statuses(runs@)),
            ran: runs@.len() as usize,
            failed: failed_runs(runs@).len() as usize,
        }),
        textmap::text_values(r.1.labels) == ready_labels(
            textmap::text_values(label_base.labels),
            preflight::verdict(statuses(runs@)),
        ),
        textmap::text_values(r.1.annotations) == ready_annotations(
            textmap::text_values(label_base.annotations),
            now@,
            failed_runs(runs@),
        ),
{
    let all = list_statuses(runs);
    let failed = list_failed(runs);
    assert(text::texts(failed@).len() == failed@.len());
    let inference = preflight::aggregate(all.as_slice());
    let training = inference;
    let mut labels = label_base.clone();
    proof {
        assert(labels.labels@ =~= label_base.labels@);
        assert(labels.annotations@ =~= label_base.annotations@);
    }
    let base = labels;
    let mut l = base.labels;
    let mut a = base.annotations;
    put(&mut l, "accel-ready.lunnova.dev/inference", inference.label_value().to_owned());
    put(&mut l, "accel-ready.lunnova.dev/training", training.label_value().to_owned());
    put(&mut a, "accel-ready.lunnova.dev/last-check", now);
    if failed.len() > 0 {
        put(&mut a, "accel-ready.lunnova.dev/failed", scan::join(&failed, ","));
    }
    let result = CycleResult { inference, training, ran: all.len(), failed: failed.len() };
    (result, LabelSet { labels: l, annotations: a })
}

} // verus!
