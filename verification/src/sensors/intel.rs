//! Intel graphics: i915 and Xe, read from sysfs. Integrated graphics share
//! the host's memory; discrete cards show theirs as the third PCI region.

use super::amd;
use super::common;
use super::common::{HwmonEntry, Sysfs};
use super::{Accelerator, AcceleratorId, Coverage, IdModel, Measurement, MeasurementModel, MemoryKind};
use super::{AcceleratorSensor, Snapshot, Vendor};
use crate::config;
use crate::sensors;
use vstd::prelude::*;

verus! {

/// A region up to this size is no card's memory: one gibibyte.
pub const ARC_DISCRETE_VRAM_FLOOR: u64 = 1_073_741_824;

/// The backend that reads the files of i915 and Xe.
pub struct IntelSysfsSensor;

/// Where a card's memory is, and how much there is, by the size of its third
/// PCI region.
pub open spec fn memory_of(bar2: u64) -> (MemoryKind, Option<u64>) {
    if bar2 > ARC_DISCRETE_VRAM_FLOOR {
        (MemoryKind::Dedicated, Some(bar2))
    } else {
        (MemoryKind::Unified, None)
    }
}

/// `r` is what the files in `device_dir` say of the card with minor
/// `drm_index`.
pub open spec fn describes(fs: Sysfs, drm_index: u32, device_dir: String, r: Accelerator) -> bool {
    &&& r.id@ == (IdModel {
        vendor: Vendor::Intel,
        drm_index,
        pci_addr: config::value_or(common::pci_addr_of(device_dir@), Seq::empty()),
    })
    &&& r.model@ == sensors::device_name(
        "Intel"@,
        amd::or_zero(common::hex_u16_in(fs.file(device_dir@, "device"@))),
    )
    &&& (r.memory_kind, r.memory_total_bytes) == memory_of(common::pci_bar(fs, device_dir@, 2))
    &&& match r.numa_node {
        Some(n) => common::i32_in(fs.file(device_dir@, "numa_node"@)) == Some(n as int),
        None => common::i32_in(fs.file(device_dir@, "numa_node"@)) is None,
    }
    &&& common::ints(r.local_cpus@) == common::local_cpus_of(fs, device_dir@)
    &&& r.iommu_group is None
    &&& r.coverage == Coverage::Full
    &&& r.fabric_domain is None
    &&& !r.partitioned
    &&& r.device_dir == device_dir
}

/// The accelerator of the card with minor `drm_index` in `device_dir`.
pub fn build_accelerator(fs: &Sysfs, drm_index: u32, device_dir: String) -> (r: Accelerator)
    ensures
        describes(*fs, drm_index, device_dir, r),
{
    let dir = device_dir.as_str();
    let device_id: u16 = match common::read_hex_u16(fs.read(dir, "device")) {
        Some(n) => n,
        None => 0,
    };
    let pci_addr = match common::pci_addr_from_device_dir(dir) {
        Some(s) => s,
        None => {
            let s = String::new();
            assert(s@ =~= Seq::empty());
            s
        },
    };
    let bars = common::read_pci_bars(fs, dir);
    let bar2: u64 = if bars.len() > 2 {
        bars[2]
    } else {
        0
    };
    let (memory_kind, memory_total_bytes) = if bar2 > ARC_DISCRETE_VRAM_FLOOR {
        (MemoryKind::Dedicated, Some(bar2))
    } else {
        (MemoryKind::Unified, None)
    };
    Accelerator {
        id: AcceleratorId { vendor: Vendor::Intel, drm_index, pci_addr },
        model: sensors::unnamed_device("Intel", device_id),
        memory_kind,
        memory_total_bytes,
        numa_node: common::read_i32(fs.read(dir, "numa_node")),
        local_cpus: common::read_local_cpus(fs, dir),
        iommu_group: None,
        coverage: Coverage::Full,
        fabric_domain: None,
        partitioned: false,
        device_dir,
    }
}

/// What one hwmon directory shows: temperature and package power.
pub open spec fn hwmon_measurements(hw: HwmonEntry) -> Seq<MeasurementModel> {
    common::gauge(
        "accel.temperature"@,
        "Cel"@,
        "GPU temperature from i915/Xe hwmon."@,
        common::u64_in(common::content(hw.files, "temp1_input"@)),
        1000,
    ) + common::gauge(
        "accel.power.usage"@,
        "W"@,
        "Package power from i915/Xe hwmon (µW)."@,
        common::u64_in(common::content(hw.files, "power1_input"@)),
        1_000_000,
    )
}

/// What hwmon directories show, one after the other.
pub open spec fn all_hwmon_measurements(hwmon: Seq<HwmonEntry>) -> Seq<MeasurementModel>
    decreases hwmon.len(),
{
    if hwmon.len() == 0 {
        Seq::empty()
    } else {
        all_hwmon_measurements(hwmon.drop_last()) + hwmon_measurements(hwmon.last())
    }
}

/// The accelerators are those of the vendor's cards, in order.
pub open spec fn are_cards(fs: Sysfs, cards: Seq<(u32, String)>, r: Seq<Accelerator>) -> bool {
    let own = common::cards_of_vendor(fs, cards, Vendor::Intel);
    &&& r.len() == own.len()
    &&& forall|i: int| 0 <= i < r.len() ==> describes(fs, own[i].0, own[i].1, #[trigger] r[i])
}

/// What a snapshot of an Intel accelerator holds.
pub open spec fn snapshot_of(fs: Sysfs, dir: Seq<char>, memory_total_bytes: Option<u64>) -> Seq<
    MeasurementModel,
> {
    common::gauge(
        "accel.memory.dedicated.total"@,
        "By"@,
        "Dedicated VRAM total (from PCI BAR2 on Intel discrete)."@,
        config::opt_nat(memory_total_bytes),
        1,
    ) + all_hwmon_measurements(common::hwmon_of(fs, dir)) + seq![
        common::health_of(fs, dir, Vendor::Intel),
    ]
}

impl AcceleratorSensor for IntelSysfsSensor {
    fn vendor(&self) -> (r: Vendor)
        ensures
            r == Vendor::Intel,
    {
        Vendor::Intel
    }

    fn enumerate(&self, fs: &Sysfs, cards: &Vec<(u32, String)>) -> (r: Vec<Accelerator>)
        ensures
            are_cards(*fs, cards@, r@),
    {
        let build = |drm_index: u32, device_dir: String| -> (a: Accelerator)
            ensures
                describes(*fs, drm_index, device_dir, a),
            {
                build_accelerator(fs, drm_index, device_dir)
            };
        common::enumerate_for_vendor(fs, Vendor::Intel, cards, build)
    }

    fn snapshot(&self, fs: &Sysfs, accel: &Accelerator) -> (r: Snapshot)
        ensures
            sensors::models(r.measurements@) == snapshot_of(
                *fs,
                accel.device_dir@,
                accel.memory_total_bytes,
            ),
    {
        let dir = accel.device_dir.as_str();
        let mut m: Vec<Measurement> = Vec::new();
        assert(sensors::models(m@) =~= Seq::empty());
        common::push_gauge(
            &mut m,
            "accel.memory.dedicated.total",
            "By",
            "Dedicated VRAM total (from PCI BAR2 on Intel discrete).",
            accel.memory_total_bytes,
            1,
        );
        let ghost head = sensors::models(m@);
        let dirs = common::hwmon_dirs(fs, dir);
        let ghost all = common::hwmon_of(*fs, dir@);
        let mut i: usize = 0;
        proof {
            assert(all.len() == dirs@.len());
            assert(head + all_hwmon_measurements(all.take(0)) =~= head);
        }
        while i < dirs.len()
            invariant
                i <= dirs@.len(),
                all == dirs@.map_values(|e: &HwmonEntry| *e),
                sensors::models(m@) == head + all_hwmon_measurements(all.take(i as int)),
            decreases dirs@.len() - i,
        {
            let ghost so_far = sensors::models(m@);
            common::push_gauge(
                &mut m,
                "accel.temperature",
                "Cel",
                "GPU temperature from i915/Xe hwmon.",
                common::read_u64(common::read_file(&dirs[i].files, "temp1_input")),
                1000,
            );
            common::push_gauge(
                &mut m,
                "accel.power.usage",
                "W",
                "Package power from i915/Xe hwmon (µW).",
                common::read_u64(common::read_file(&dirs[i].files, "power1_input")),
                1_000_000,
            );
            proof {
                let t = all.take(i + 1);
                assert(t.drop_last() =~= all.take(i as int));
                assert(t.last() == *dirs@[i as int]);
                assert(sensors::models(m@) =~= so_far + hwmon_measurements(t.last()));
                assert(head + (all_hwmon_measurements(all.take(i as int)) + hwmon_measurements(t.last())) =~= so_far
                    + hwmon_measurements(t.last()));
            }
            i = i + 1;
        }
        let health = common::sensor_health(fs, dir, Vendor::Intel);
        let ghost so_far = sensors::models(m@);
        let ghost h = health@;
        m.push(health);
        proof {
            assert(all.take(all.len() as int) =~= all);
            assert(sensors::models(m@) =~= so_far + seq![h]);
            assert(sensors::models(m@) =~= snapshot_of(*fs, dir@, accel.memory_total_bytes));
        }
        Snapshot { measurements: m }
    }
}

} // verus!
