//! What the points that are exported say, and what a cycle publishes.

use super::{AttrModel, PointModel, ValueModel};
use crate::number;
use crate::preflight;
use crate::preflight::{NodeReadiness, Status};
use crate::scan;
use crate::sensors;
use crate::sensors::common::Sysfs;
use crate::sensors::{Accelerator, MeasurementModel};
use crate::sorting;
use crate::telemetry;
use crate::telemetry::live;
use crate::telemetry::preflight as cycle;
use crate::telemetry::preflight::CheckRun;
use vstd::prelude::*;

verus! {

// ---------------------------------------------------------------------
// Attributes
// ---------------------------------------------------------------------

/// The only attribute with the key is the given one.
pub open spec fn carries(attrs: Seq<AttrModel>, key: Seq<char>, value: ValueModel) -> bool {
    &&& exists|i: int| 0 <= i < attrs.len() && (#[trigger] attrs[i]).key == key
    &&& forall|i: int| 0 <= i < attrs.len() && (#[trigger] attrs[i]).key == key ==> attrs[i].value == value
}

proof fn lemma_keys_differ()
    ensures
        ({
            let keys = seq![
                "vendor"@,
                "model"@,
                "accel.index"@,
                "pci_addr"@,
                "memory_kind"@,
                "coverage"@,
                "fabric_domain"@,
                "numa_node"@,
                "name"@,
                "status"@,
                "check"@,
            ];
            forall|i: int, j: int| 0 <= i < j < keys.len() ==> #[trigger] keys[i] != #[trigger] keys[j]
        }),
{
    reveal_strlit("vendor");
    reveal_strlit("model");
    reveal_strlit("accel.index");
    reveal_strlit("pci_addr");
    reveal_strlit("memory_kind");
    reveal_strlit("coverage");
    reveal_strlit("fabric_domain");
    reveal_strlit("numa_node");
    reveal_strlit("name");
    reveal_strlit("status");
    reveal_strlit("check");
    assert("vendor"@.len() == 6 && "status"@.len() == 6 && "vendor"@[0] == 'v' && "status"@[0] == 's');
    assert("model"@.len() == 5 && "check"@.len() == 5 && "model"@[0] == 'm' && "check"@[0] == 'c');
    assert("accel.index"@.len() == 11 && "memory_kind"@.len() == 11 && "accel.index"@[0] == 'a' && "memory_kind"@[0]
        == 'm');
    assert("pci_addr"@.len() == 8 && "coverage"@.len() == 8 && "pci_addr"@[0] == 'p' && "coverage"@[0] == 'c');
    assert("fabric_domain"@.len() == 13 && "numa_node"@.len() == 9 && "name"@.len() == 4);
}

proof fn lemma_carries_at(attrs: Seq<AttrModel>, i: int)
    requires
        0 <= i < attrs.len(),
        forall|j: int| 0 <= j < attrs.len() && j != i ==> (#[trigger] attrs[j]).key != attrs[i].key,
    ensures
        carries(attrs, attrs[i].key, attrs[i].value),
{
    assert(attrs[i].key == attrs[i].key);
}

/// Every point of an accelerator says once of each thing what the accelerator
/// holds of it.
pub proof fn law_points_tell_of_accelerator(a: Accelerator)
    ensures
        telemetry::base_of(a).len() == 8,
        carries(telemetry::base_of(a), "vendor"@, ValueModel::Text(a.id.vendor.name())),
        carries(telemetry::base_of(a), "model"@, ValueModel::Text(a.model@)),
        carries(telemetry::base_of(a), "accel.index"@, ValueModel::Number(a.id.drm_index as int)),
        carries(telemetry::base_of(a), "pci_addr"@, ValueModel::Text(a.id.pci_addr@)),
        carries(telemetry::base_of(a), "memory_kind"@, ValueModel::Text(a.memory_kind.name())),
        carries(telemetry::base_of(a), "coverage"@, ValueModel::Text(a.coverage.name())),
        a.fabric_domain matches Some(s) ==> carries(telemetry::base_of(a), "fabric_domain"@, ValueModel::Text(s@)),
        a.fabric_domain is None ==> carries(
            telemetry::base_of(a),
            "fabric_domain"@,
            ValueModel::Text(Seq::empty()),
        ),
        a.numa_node matches Some(n) ==> carries(
            telemetry::base_of(a),
            "numa_node"@,
            ValueModel::Number(n as int),
        ),
        a.numa_node is None ==> carries(telemetry::base_of(a), "numa_node"@, ValueModel::Number(-1)),
{
    let keys = seq![
        "vendor"@,
        "model"@,
        "accel.index"@,
        "pci_addr"@,
        "memory_kind"@,
        "coverage"@,
        "fabric_domain"@,
        "numa_node"@,
        "name"@,
        "status"@,
        "check"@,
    ];
    lemma_keys_differ();
    let b = telemetry::base_of(a);
    assert forall|i: int, j: int| 0 <= i < b.len() && 0 <= j < b.len() && j != i implies (#[trigger] b[j]).key != (
    #[trigger] b[i]).key by {
        assert(b[i].key == keys[i] && b[j].key == keys[j]);
        if i < j {
            assert(keys[i] != keys[j]);
        } else {
            assert(keys[j] != keys[i]);
        }
    }
    lemma_carries_at(b, 0);
    lemma_carries_at(b, 1);
    lemma_carries_at(b, 2);
    lemma_carries_at(b, 3);
    lemma_carries_at(b, 4);
    lemma_carries_at(b, 5);
    lemma_carries_at(b, 6);
    lemma_carries_at(b, 7);
}

/// The point says what the measurement says, with the attributes in `head`
/// first.
pub open spec fn repeats(p: PointModel, head: Seq<AttrModel>, m: MeasurementModel) -> bool {
    &&& p.name == m.name
    &&& p.unit == m.unit
    &&& p.description == m.description
    &&& p.value == m.value
    &&& p.attrs.len() == head.len() + m.attrs.len()
    &&& forall|i: int| 0 <= i < head.len() ==> #[trigger] p.attrs[i] == head[i]
    &&& forall|i: int|
        0 <= i < m.attrs.len() ==> p.attrs[head.len() + i].key == (#[trigger] m.attrs[i]).0 && p.attrs[head.len()
            + i].value == ValueModel::Text(m.attrs[i].1)
}

/// One more accelerator adds a point for each measurement of its snapshot
/// after the points of the others, with the accelerator's attributes; one
/// without a snapshot adds nothing.
pub proof fn law_tick_adds_snapshots(fs: Sysfs, accels: Seq<Accelerator>, a: Accelerator)
    ensures
        live::tick_points(fs, Seq::empty()).len() == 0,
        ({
            let before = live::tick_points(fs, accels);
            let after = live::tick_points(fs, accels.push(a));
            match sensors::snapshot_of(fs, a) {
                Some(ms) => {
                    &&& after.len() == before.len() + ms.len()
                    &&& forall|i: int| 0 <= i < before.len() ==> #[trigger] after[i] == before[i]
                    &&& forall|i: int|
                        0 <= i < ms.len() ==> repeats(
                            after[before.len() + i],
                            telemetry::base_of(a),
                            #[trigger] ms[i],
                        )
                },
                None => after == before,
            }
        }),
{
    assert(accels.push(a).drop_last() =~= accels);
    let before = live::tick_points(fs, accels);
    let after = live::tick_points(fs, accels.push(a));
    match sensors::snapshot_of(fs, a) {
        Some(ms) => {
            assert forall|i: int| 0 <= i < ms.len() implies repeats(
                after[before.len() + i],
                telemetry::base_of(a),
                #[trigger] ms[i],
            ) by {
                assert(after[before.len() + i] == telemetry::point_of(telemetry::base_of(a), ms[i]));
            }
        },
        None => {
            assert(after =~= before);
        },
    }
}

// ---------------------------------------------------------------------
// Runs of checks
// ---------------------------------------------------------------------

/// What is recorded of a run says which accelerator it was, which check, and
/// how it ended.
pub proof fn law_run_is_recorded(a: Accelerator, check: Seq<char>, status: Status)
    ensures
        forall|i: int|
            0 <= i < telemetry::base_of(a).len() ==> #[trigger] cycle::run_attrs(a, check, status)[i]
                == telemetry::base_of(a)[i],
        carries(cycle::run_attrs(a, check, status), "name"@, ValueModel::Text(check)),
        carries(cycle::run_attrs(a, check, status), "status"@, ValueModel::Text(status.name())),
        cycle::run_attrs(a, check, status).len() == telemetry::base_of(a).len() + 2,
{
    let keys = seq![
        "vendor"@,
        "model"@,
        "accel.index"@,
        "pci_addr"@,
        "memory_kind"@,
        "coverage"@,
        "fabric_domain"@,
        "numa_node"@,
        "name"@,
        "status"@,
        "check"@,
    ];
    lemma_keys_differ();
    let r = cycle::run_attrs(a, check, status);
    assert forall|i: int, j: int| 0 <= i < r.len() && 0 <= j < r.len() && j != i implies (#[trigger] r[j]).key != (
    #[trigger] r[i]).key by {
        assert(r[i].key == keys[i] && r[j].key == keys[j]);
        if i < j {
            assert(keys[i] != keys[j]);
        } else {
            assert(keys[j] != keys[i]);
        }
    }
    lemma_carries_at(r, 8);
    lemma_carries_at(r, 9);
}

/// The pass gauge is one for a pass and zero for a warning and a failure; a
/// skipped run has none.
pub proof fn law_pass_gauge(status: Status)
    ensures
        cycle::pass_gauge(status) == Some(1u64) <==> status == Status::Pass,
        cycle::pass_gauge(status) == Some(0u64) <==> status == Status::Fail || status == Status::Warn,
        cycle::pass_gauge(status) is None <==> status == Status::Skipped,
{
}

/// The points of what a check measured repeat each measurement, with the
/// accelerator's attributes and the check in front.
pub proof fn law_observations(a: Accelerator, check: Seq<char>, ms: Seq<MeasurementModel>, i: int)
    requires
        0 <= i < ms.len(),
    ensures
        ({
            let head = telemetry::base_of(a).push(telemetry::text_of("check"@, check));
            let points = live::points_with(head, ms);
            &&& points.len() == ms.len()
            &&& repeats(points[i], head, ms[i])
            &&& head.last().key == "check"@
            &&& head.last().value == ValueModel::Text(check)
        }),
{
    let head = telemetry::base_of(a).push(telemetry::text_of("check"@, check));
    assert(live::points_with(head, ms)[i] == telemetry::point_of(head, ms[i]));
}

/// A run that failed or warned, as it is listed.
pub open spec fn listed(r: CheckRun) -> Seq<char> {
    r.check@ + "@"@ + number::decimal(r.drm_index as nat)
}

/// The runs that failed or warned are listed in their order, and no others.
pub proof fn law_failed_runs_are_listed(runs: Seq<CheckRun>)
    ensures
        cycle::failed_runs(runs) == runs.filter(
            |r: CheckRun| r.status == Status::Fail || r.status == Status::Warn,
        ).map_values(|r: CheckRun| listed(r)),
    decreases runs.len(),
{
    let keep = |r: CheckRun| r.status == Status::Fail || r.status == Status::Warn;
    let show = |r: CheckRun| listed(r);
    if runs.len() == 0 {
        assert(runs.filter(keep) =~= Seq::empty()) by {
            reveal(Seq::filter);
        }
    } else {
        law_failed_runs_are_listed(runs.drop_last());
        assert(runs =~= runs.drop_last().push(runs.last()));
        sorting::lemma_filter_push(runs.drop_last(), runs.last(), keep);
    }
    assert(cycle::failed_runs(runs) =~= runs.filter(keep).map_values(show));
}

/// The readiness of a node is published for inference and for training, and
/// no other label changes.
pub proof fn law_readiness_is_published(base: Map<Seq<char>, Seq<char>>, r: NodeReadiness, key: Seq<char>)
    ensures
        ({
            let labels = cycle::ready_labels(base, r);
            &&& labels.contains_key("accel-ready.lunnova.dev/inference"@)
            &&& labels["accel-ready.lunnova.dev/inference"@] == r.label()
            &&& labels.contains_key("accel-ready.lunnova.dev/training"@)
            &&& labels["accel-ready.lunnova.dev/training"@] == r.label()
            &&& key != "accel-ready.lunnova.dev/inference"@ && key != "accel-ready.lunnova.dev/training"@ ==> (
            labels.contains_key(key) <==> base.contains_key(key)) && (base.contains_key(key) ==> labels[key]
                == base[key])
        }),
{
    reveal_strlit("accel-ready.lunnova.dev/inference");
    reveal_strlit("accel-ready.lunnova.dev/training");
    assert("accel-ready.lunnova.dev/inference"@[24] != "accel-ready.lunnova.dev/training"@[24]);
}

/// The time of a cycle is published, and the failed runs with commas between
/// them where there are any.
pub proof fn law_cycle_is_annotated(
    base: Map<Seq<char>, Seq<char>>,
    now: Seq<char>,
    failed: Seq<Seq<char>>,
    one: Seq<char>,
    key: Seq<char>,
)
    ensures
        ({
            let at = "accel-ready.lunnova.dev/last-check"@;
            let list = "accel-ready.lunnova.dev/failed"@;
            let none = cycle::ready_annotations(base, now, Seq::empty());
            let some = cycle::ready_annotations(base, now, failed);
            let more = cycle::ready_annotations(base, now, failed.push(one));
            &&& some.contains_key(at) && some[at] == now
            &&& none.contains_key(list) <==> base.contains_key(list)
            &&& more.contains_key(list)
            &&& failed.len() == 0 ==> more[list] == one
            &&& failed.len() > 0 ==> more[list] == some[list] + ","@ + one
            &&& key != at && key != list ==> (some.contains_key(key) <==> base.contains_key(key)) && (
            base.contains_key(key) ==> some[key] == base[key])
        }),
{
    reveal_strlit("accel-ready.lunnova.dev/last-check");
    reveal_strlit("accel-ready.lunnova.dev/failed");
    assert("accel-ready.lunnova.dev/last-check"@[24] != "accel-ready.lunnova.dev/failed"@[24]);
    let more = failed.push(one);
    assert(more.drop_last() =~= failed);
    reveal_with_fuel(scan::joined, 2);
}

/// What a cycle comes to is the readiness that its runs make up, the number
/// of runs, and the number of those that failed or warned.
pub proof fn law_cycle_counts_runs(runs: Seq<CheckRun>)
    ensures
        cycle::statuses(runs).len() == runs.len(),
        forall|i: int| 0 <= i < runs.len() ==> #[trigger] cycle::statuses(runs)[i] == runs[i].status,
        cycle::failed_runs(runs).len() == runs.filter(
            |r: CheckRun| r.status == Status::Fail || r.status == Status::Warn,
        ).len(),
        preflight::verdict(cycle::statuses(runs)) == NodeReadiness::Degraded <==> cycle::failed_runs(runs).len() > 0,
{
    law_failed_runs_are_listed(runs);
    let keep = |r: CheckRun| r.status == Status::Fail || r.status == Status::Warn;
    let bad = runs.filter(keep);
    let all = cycle::statuses(runs);
    if bad.len() > 0 {
        assert(bad.contains(bad[0]));
        sorting::lemma_filter_member(runs, keep, bad[0]);
        let i = choose|i: int| 0 <= i < runs.len() && runs[i] == bad[0];
        assert(all[i] == bad[0].status);
    }
    if all.contains(Status::Fail) || all.contains(Status::Warn) {
        let i = choose|i: int| 0 <= i < all.len() && (all[i] == Status::Fail || all[i] == Status::Warn);
        assert(keep(runs[i]));
        assert(runs.contains(runs[i]));
        assert(bad.contains(runs[i]));
    }
}

// ---------------------------------------------------------------------
// Models
// ---------------------------------------------------------------------

/// The model of an attribute says what the attribute says.
pub proof fn law_model_of_an_attribute(a: telemetry::Attr)
    ensures
        a@.key == a.key@,
        a.value matches telemetry::AttrValue::Text(s) ==> a@.value == ValueModel::Text(s@),
        a.value matches telemetry::AttrValue::Number(n) ==> a@.value == ValueModel::Number(n as int),
        a.value matches telemetry::AttrValue::Flag(b) ==> a@.value == ValueModel::Flag(b),
{
}

/// The model of a point says of each thing what the point says of it.
pub proof fn law_model_of_a_point(p: telemetry::Point)
    ensures
        p@.name == p.name@,
        p@.unit == p.unit@,
        p@.description == p.description@,
        p@.value == p.value,
        p@.attrs.len() == p.attrs@.len(),
        forall|i: int| 0 <= i < p.attrs@.len() ==> #[trigger] p@.attrs[i] == p.attrs@[i]@,
{
}


// ---------------------------------------------------------------------
// The matrix
// ---------------------------------------------------------------------

/// Every check of the daemon runs on every accelerator, once, check by check.
pub proof fn law_every_check_runs_everywhere(
    checks: Seq<preflight::Check>,
    accels: Seq<Accelerator>,
    r: Seq<(usize, usize)>,
    c: usize,
    a: usize,
)
    requires
        cycle::is_matrix(checks, accels, r),
    ensures
        c < checks.len() && a < accels.len() ==> r.contains((c, a)),
        forall|i: int| 0 <= i < r.len() ==> (#[trigger] r[i]).0 < checks.len() && r[i].1 < accels.len(),
        forall|i: int, j: int|
            0 <= i < j < r.len() ==> (#[trigger] r[i]).0 < (#[trigger] r[j]).0 || (r[i].0 == r[j].0 && r[i].1
                < r[j].1),
{
    assert forall|i: int, j: int| 0 <= i < j < r.len() implies (#[trigger] r[i]).0 < (#[trigger] r[j]).0 || (r[i].0
        == r[j].0 && r[i].1 < r[j].1) by {
        assert(cycle::pair_lt(r[i], r[j]));
    }
}


} // verus!
