//! The live part of the telemetry: a snapshot of every accelerator.

use super::{AttrModel, Point, PointModel};
use crate::sensors;
use crate::sensors::common::Sysfs;
use crate::sensors::{Accelerator, Measurement, MeasurementModel};
use crate::telemetry;
use vstd::prelude::*;

verus! {

/// Measurements as points with the given attributes in front.
pub open spec fn points_with(head: Seq<AttrModel>, ms: Seq<MeasurementModel>) -> Seq<PointModel> {
    ms.map_values(|m: MeasurementModel| telemetry::point_of(head, m))
}

/// The points of an accelerator: its snapshot, where a backend reads it.
pub open spec fn accelerator_points(fs: Sysfs, a: Accelerator) -> Seq<PointModel> {
    match sensors::snapshot_of(fs, a) {
        Some(ms) => points_with(telemetry::base_of(a), ms),
        None => Seq::empty(),
    }
}

/// The points of a tick: those of each accelerator, in order.
pub open spec fn tick_points(fs: Sysfs, accels: Seq<Accelerator>) -> Seq<PointModel>
    decreases accels.len(),
{
    if accels.len() == 0 {
        Seq::empty()
    } else {
        tick_points(fs, accels.drop_last()) + accelerator_points(fs, accels.last())
    }
}

fn push_points(out: &mut Vec<Point>, accel: &Accelerator, ms: &Vec<Measurement>)
    ensures
        telemetry::point_models(final(out)@) == telemetry::point_models(old(out)@) + points_with(
            telemetry::base_of(*accel),
            sensors::models(ms@),
        ),
{
    let ghost before = telemetry::point_models(out@);
    let ghost all = points_with(telemetry::base_of(*accel), sensors::models(ms@));
    let mut i: usize = 0;
    assert(before + all.take(0) =~= before);
    while i < ms.len()
        invariant
            i <= ms@.len(),
            all == points_with(telemetry::base_of(*accel), sensors::models(ms@)),
            all.len() == ms@.len(),
            telemetry::point_models(out@) == before + all.take(i as int),
        decreases ms@.len() - i,
    {
        let ghost so_far = telemetry::point_models(out@);
        let p = telemetry::point(telemetry::base_attrs(accel), &ms[i]);
        let ghost model = p@;
        out.push(p);
        i = i + 1;
        proof {
            assert(all[i - 1] == model);
            assert(telemetry::point_models(out@) =~= so_far.push(model));
            assert(before + all.take(i as int) =~= (before + all.take(i - 1)).push(all[i - 1]));
        }
    }
    assert(all.take(all.len() as int) =~= all);
}

/// The points of a tick over `accelerators`.
pub fn tick(fs: &Sysfs, accelerators: &Vec<Accelerator>) -> (r: Vec<Point>)
    ensures
        telemetry::point_models(r@) == tick_points(*fs, accelerators@),
{
    let mut out: Vec<Point> = Vec::new();
    assert(telemetry::point_models(out@) =~= Seq::empty());
    let mut i: usize = 0;
    while i < accelerators.len()
        invariant
            i <= accelerators@.len(),
            telemetry::point_models(out@) == tick_points(*fs, accelerators@.take(i as int)),
        decreases accelerators@.len() - i,
    {
        let ghost before = telemetry::point_models(out@);
        proof {
            let t = accelerators@.take(i + 1);
            assert(t.drop_last() =~= accelerators@.take(i as int));
            assert(t.last() == accelerators@[i as int]);
        }
        match sensors::snapshot(fs, &accelerators[i]) {
            Some(s) => {
                push_points(&mut out, &accelerators[i], &s.measurements);
            },
            None => {
                assert(before + Seq::<PointModel>::empty() =~= before);
            },
        }
        i = i + 1;
    }
    assert(accelerators@.take(accelerators@.len() as int) =~= accelerators@);
    out
}

} // verus!
