//! AMD accelerators: discrete cards, integrated graphics and Instinct, all
//! read from the device's directory in sysfs.

use super::common;
use super::common::{HwmonEntry, Sysfs};
use super::{Accelerator, AcceleratorId, Coverage, IdModel, Measurement, MeasurementModel, MemoryKind, Ratio};
use super::{AcceleratorSensor, Snapshot, Vendor};
use crate::number;
use crate::sensors;
use crate::text;
use vstd::prelude::*;

verus! {

/// The backend that reads amdgpu's files.
pub struct AmdSysfsSensor;

/// A number that a file of the device holds.
pub open spec fn file_u64(fs: Sysfs, dir: Seq<char>, name: Seq<char>) -> Option<nat> {
    common::u64_in(fs.file(dir, name))
}

fn read_u64_file(fs: &Sysfs, dir: &str, name: &str) -> (r: Option<u64>)
    ensures
        match r {
            Some(n) => file_u64(*fs, dir@, name@) == Some(n as nat),
            None => file_u64(*fs, dir@, name@) is None,
        },
{
    common::read_u64(fs.read(dir, name))
}

/// A number, or zero.
pub open spec fn or_zero(o: Option<nat>) -> nat {
    match o {
        Some(n) => n,
        None => 0,
    }
}

/// Where a card's memory is, and how much there is. A host aperture of more
/// than four times the card's own memory makes it unified, and counts.
pub open spec fn memory_of(vram: nat, gtt: nat) -> (MemoryKind, Option<nat>) {
    if gtt > 4 * vram {
        (MemoryKind::Unified, Some(gtt))
    } else if vram > 0 {
        (MemoryKind::Dedicated, Some(vram))
    } else {
        (MemoryKind::Unknown, None)
    }
}

/// The memory of the card in `device_dir`.
pub fn classify_memory(fs: &Sysfs, device_dir: &str) -> (r: (MemoryKind, Option<u64>))
    ensures
        (r.0, crate::config::opt_nat(r.1)) == memory_of(
            or_zero(file_u64(*fs, device_dir@, "mem_info_vram_total"@)),
            or_zero(file_u64(*fs, device_dir@, "mem_info_gtt_total"@)),
        ),
        ({
            let vram = or_zero(common::u64_in(fs.file(device_dir@, "mem_info_vram_total"@)));
            let gtt = or_zero(common::u64_in(fs.file(device_dir@, "mem_info_gtt_total"@)));
            &&& gtt > 4 * vram <==> r.0 == MemoryKind::Unified && r.1 is Some && r.1->0 == gtt
            &&& vram > 0 && gtt <= 4 * vram <==> r.0 == MemoryKind::Dedicated && r.1 is Some && r.1->0 == vram
            &&& vram == 0 && gtt == 0 <==> r.0 == MemoryKind::Unknown && r.1 is None
        }),
{
    let vram_total: u64 = match read_u64_file(fs, device_dir, "mem_info_vram_total") {
        Some(n) => n,
        None => 0,
    };
    let gtt_total: u64 = match read_u64_file(fs, device_dir, "mem_info_gtt_total") {
        Some(n) => n,
        None => 0,
    };
    if gtt_total as u128 > 4 * vram_total as u128 {
        (MemoryKind::Unified, Some(gtt_total))
    } else if vram_total > 0 {
        (MemoryKind::Dedicated, Some(vram_total))
    } else {
        (MemoryKind::Unknown, None)
    }
}

/// The product name in sysfs, or one made up from the device identifier.
pub open spec fn model_of(fs: Sysfs, dir: Seq<char>, device_id: nat) -> Seq<char> {
    match common::first_line_in(fs.file(dir, "product_name"@)) {
        Some(s) => if s.len() > 0 {
            s
        } else {
            sensors::device_name("AMD"@, device_id)
        },
        None => sensors::device_name("AMD"@, device_id),
    }
}

/// The model name of the card in `device_dir`.
pub fn amd_model_name(fs: &Sysfs, device_id: u16, device_dir: &str) -> (r: String)
    ensures
        r@ == model_of(*fs, device_dir@, device_id as nat),
{
    match common::read_string_first_line(fs.read(device_dir, "product_name")) {
        Some(s) => if text::is_empty(s.as_str()) {
            sensors::unnamed_device("AMD", device_id)
        } else {
            s
        },
        None => sensors::unnamed_device("AMD", device_id),
    }
}

/// The group that the device's `iommu_group` link points to.
pub open spec fn iommu_group_of(fs: Sysfs, dir: Seq<char>) -> Option<nat> {
    if fs.devices@.contains_key(dir) {
        match fs.devices@[dir].iommu_group {
            Some(s) => number::bounded_of(s@, 10, u32::MAX as nat),
            None => None,
        }
    } else {
        None
    }
}

fn iommu_group(fs: &Sysfs, device_dir: &str) -> (r: Option<u32>)
    ensures
        match r {
            Some(n) => iommu_group_of(*fs, device_dir@) == Some(n as nat),
            None => iommu_group_of(*fs, device_dir@) is None,
        },
{
    match fs.devices.get(device_dir) {
        Some(d) => match &d.iommu_group {
            Some(s) => number::parse_u32(s.as_str()),
            None => None,
        },
        None => None,
    }
}

/// `r` is what the files in `device_dir` say of the card with minor
/// `drm_index`.
pub open spec fn describes(fs: Sysfs, drm_index: u32, device_dir: String, r: Accelerator) -> bool {
    &&& r.id@ == (IdModel {
        vendor: Vendor::Amd,
        drm_index,
        pci_addr: crate::config::value_or(common::pci_addr_of(device_dir@), Seq::empty()),
    })
    &&& r.model@ == model_of(
        fs,
        device_dir@,
        or_zero(common::hex_u16_in(fs.file(device_dir@, "device"@))),
    )
    &&& (r.memory_kind, crate::config::opt_nat(r.memory_total_bytes)) == memory_of(
        or_zero(file_u64(fs, device_dir@, "mem_info_vram_total"@)),
        or_zero(file_u64(fs, device_dir@, "mem_info_gtt_total"@)),
    )
    &&& match r.numa_node {
        Some(n) => common::i32_in(fs.file(device_dir@, "numa_node"@)) == Some(n as int),
        None => common::i32_in(fs.file(device_dir@, "numa_node"@)) is None,
    }
    &&& common::ints(r.local_cpus@) == common::local_cpus_of(fs, device_dir@)
    &&& match r.iommu_group {
        Some(n) => iommu_group_of(fs, device_dir@) == Some(n as nat),
        None => iommu_group_of(fs, device_dir@) is None,
    }
    &&& r.coverage == Coverage::Full
    &&& r.fabric_domain is None
    &&& !r.partitioned
    &&& r.device_dir == device_dir
}

/// The accelerator of the card with minor `drm_index` in `device_dir`.
pub fn build_accelerator(fs: &Sysfs, drm_index: u32, device_dir: String) -> (r: Accelerator)
    ensures
        describes(*fs, drm_index, device_dir, r),
{
    let dir = device_dir.as_str();
    let device_id: u16 = match common::read_hex_u16(fs.read(dir, "device")) {
        Some(n) => n,
        None => 0,
    };
    let pci_addr = match common::pci_addr_from_device_dir(dir) {
        Some(s) => s,
        None => {
            let s = String::new();
            assert(s@ =~= Seq::empty());
            s
        },
    };
    let (memory_kind, memory_total_bytes) = classify_memory(fs, dir);
    Accelerator {
        id: AcceleratorId { vendor: Vendor::Amd, drm_index, pci_addr },
        model: amd_model_name(fs, device_id, dir),
        memory_kind,
        memory_total_bytes,
        numa_node: common::read_i32(fs.read(dir, "numa_node")),
        local_cpus: common::read_local_cpus(fs, dir),
        iommu_group: iommu_group(fs, dir),
        coverage: Coverage::Full,
        fabric_domain: None,
        partitioned: false,
        device_dir,
    }
}

/// The label of a hwmon sensor, or its prefix where it has none.
pub open spec fn hwmon_label_of(hw: HwmonEntry, prefix: Seq<char>) -> Seq<char> {
    match common::first_line_in(common::content(hw.files, prefix + "_label"@)) {
        Some(s) => s,
        None => prefix,
    }
}

fn hwmon_label(hw: &HwmonEntry, prefix: &str) -> (r: String)
    ensures
        r@ == hwmon_label_of(*hw, prefix@),
{
    let name = text::join2(prefix, "_label");
    match common::read_string_first_line(common::read_file(&hw.files, name.as_str())) {
        Some(s) => s,
        None => prefix.to_owned(),
    }
}

/// What one hwmon directory shows: temperature and average power.
pub open spec fn hwmon_measurements(hw: HwmonEntry) -> Seq<MeasurementModel> {
    let temp = match common::u64_in(common::content(hw.files, "temp1_input"@)) {
        Some(t) => seq![
            MeasurementModel {
                name: "accel.temperature"@,
                unit: "Cel"@,
                description: "Edge or junction temperature from hwmon temp1."@,
                value: Ratio { raw: t as u64, divisor: 1000 },
                attrs: seq![("sensor"@, hwmon_label_of(hw, "temp1"@))],
            },
        ],
        None => Seq::empty(),
    };
    temp + common::gauge(
        "accel.power.usage"@,
        "W"@,
        "Average board power from hwmon power1_average."@,
        common::u64_in(common::content(hw.files, "power1_average"@)),
        1_000_000,
    )
}

/// What hwmon directories show, one after the other.
pub open spec fn all_hwmon_measurements(hwmon: Seq<HwmonEntry>) -> Seq<MeasurementModel>
    decreases hwmon.len(),
{
    if hwmon.len() == 0 {
        Seq::empty()
    } else {
        all_hwmon_measurements(hwmon.drop_last()) + hwmon_measurements(hwmon.last())
    }
}

/// The gauge of one of amdgpu's byte counts.
pub open spec fn bytes_gauge(
    fs: Sysfs,
    dir: Seq<char>,
    file: Seq<char>,
    name: Seq<char>,
    description: Seq<char>,
) -> Seq<MeasurementModel> {
    common::gauge(name, "By"@, description, file_u64(fs, dir, file), 1)
}

/// The accelerators are those of the vendor's cards, in order.
pub open spec fn are_cards(fs: Sysfs, cards: Seq<(u32, String)>, r: Seq<Accelerator>) -> bool {
    let own = common::cards_of_vendor(fs, cards, Vendor::Amd);
    &&& r.len() == own.len()
    &&& forall|i: int| 0 <= i < r.len() ==> describes(fs, own[i].0, own[i].1, #[trigger] r[i])
}

/// What a snapshot of an AMD accelerator holds: the memory counts, the
/// utilization, temperature and power, and the sensor's health.
pub open spec fn snapshot_of(fs: Sysfs, dir: Seq<char>) -> Seq<MeasurementModel> {
    bytes_gauge(
        fs,
        dir,
        "mem_info_vram_total"@,
        "accel.memory.vram.total"@,
        "Dedicated VRAM size reported by amdgpu (small on iGPUs)."@,
    ) + bytes_gauge(fs, dir, "mem_info_vram_used"@, "accel.memory.vram.used"@, "Used VRAM bytes."@)
        + bytes_gauge(
        fs,
        dir,
        "mem_info_gtt_total"@,
        "accel.memory.gtt.total"@,
        "GTT (host aperture) size — this is the UMA carrier on iGPUs."@,
    ) + bytes_gauge(fs, dir, "mem_info_gtt_used"@, "accel.memory.gtt.used"@, "Used GTT bytes."@)
        + bytes_gauge(
        fs,
        dir,
        "mem_info_visible_vram_total"@,
        "accel.memory.visible_vram.total"@,
        "CPU-visible portion of VRAM (BAR1/Resizable-BAR aperture)."@,
    ) + common::gauge(
        "accel.utilization"@,
        "1"@,
        "Approximate GPU busy fraction (gpu_busy_percent / 100)."@,
        file_u64(fs, dir, "gpu_busy_percent"@),
        100,
    ) + all_hwmon_measurements(common::hwmon_of(fs, dir)) + seq![
        common::health_of(fs, dir, Vendor::Amd),
    ]
}

fn push_hwmon(m: &mut Vec<Measurement>, hw: &HwmonEntry)
    ensures
        sensors::models(final(m)@) == sensors::models(old(m)@) + hwmon_measurements(*hw),
{
    let ghost before = sensors::models(m@);
    let ghost mut temp: Seq<MeasurementModel> = Seq::empty();
    match common::read_u64(common::read_file(&hw.files, "temp1_input")) {
        Some(t) => {
            let label = hwmon_label(hw, "temp1");
            let mut attrs: Vec<(&'static str, String)> = Vec::new();
            attrs.push(("sensor", label));
            let measured = Measurement {
                name: "accel.temperature",
                unit: "Cel",
                description: "Edge or junction temperature from hwmon temp1.",
                value: Ratio { raw: t, divisor: 1000 },
                attrs,
            };
            proof {
                assert(measured@.attrs =~= seq![("sensor"@, hwmon_label_of(*hw, "temp1"@))]);
                temp = seq![measured@];
            }
            m.push(measured);
            assert(sensors::models(m@) =~= before + temp);
        },
        None => {
            assert(before + temp =~= before);
        },
    }
    common::push_gauge(
        m,
        "accel.power.usage",
        "W",
        "Average board power from hwmon power1_average.",
        common::read_u64(common::read_file(&hw.files, "power1_average")),
        1_000_000,
    );
    proof {
        let power = common::gauge(
            "accel.power.usage"@,
            "W"@,
            "Average board power from hwmon power1_average."@,
            common::u64_in(common::content(hw.files, "power1_average"@)),
            1_000_000,
        );
        assert(sensors::models(m@) =~= before + (temp + power));
    }
}

impl AcceleratorSensor for AmdSysfsSensor {
    fn vendor(&self) -> (r: Vendor)
        ensures
            r == Vendor::Amd,
    {
        Vendor::Amd
    }

    fn enumerate(&self, fs: &Sysfs, cards: &Vec<(u32, String)>) -> (r: Vec<Accelerator>)
        ensures
            are_cards(*fs, cards@, r@),
    {
        let build = |drm_index: u32, device_dir: String| -> (a: Accelerator)
            ensures
                describes(*fs, drm_index, device_dir, a),
            {
                build_accelerator(fs, drm_index, device_dir)
            };
        common::enumerate_for_vendor(fs, Vendor::Amd, cards, build)
    }

    fn snapshot(&self, fs: &Sysfs, accel: &Accelerator) -> (r: Snapshot)
        ensures
            sensors::models(r.measurements@) == snapshot_of(*fs, accel.device_dir@),
    {
        let dir = accel.device_dir.as_str();
        let mut m: Vec<Measurement> = Vec::new();
        assert(sensors::models(m@) =~= Seq::empty());
        common::push_gauge(
            &mut m,
            "accel.memory.vram.total",
            "By",
            "Dedicated VRAM size reported by amdgpu (small on iGPUs).",
            read_u64_file(fs, dir, "mem_info_vram_total"),
            1,
        );
        common::push_gauge(
            &mut m,
            "accel.memory.vram.used",
            "By",
            "Used VRAM bytes.",
            read_u64_file(fs, dir, "mem_info_vram_used"),
            1,
        );
        common::push_gauge(
            &mut m,
            "accel.memory.gtt.total",
            "By",
            "GTT (host aperture) size — this is the UMA carrier on iGPUs.",
            read_u64_file(fs, dir, "mem_info_gtt_total"),
            1,
        );
        common::push_gauge(
            &mut m,
            "accel.memory.gtt.used",
            "By",
            "Used GTT bytes.",
            read_u64_file(fs, dir, "mem_info_gtt_used"),
            1,
        );
        common::push_gauge(
            &mut m,
            "accel.memory.visible_vram.total",
            "By",
            "CPU-visible portion of VRAM (BAR1/Resizable-BAR aperture).",
            read_u64_file(fs, dir, "mem_info_visible_vram_total"),
            1,
        );
        common::push_gauge(
            &mut m,
            "accel.utilization",
            "1",
            "Approximate GPU busy fraction (gpu_busy_percent / 100).",
            read_u64_file(fs, dir, "gpu_busy_percent"),
            100,
        );
        let ghost head = sensors::models(m@);
        let dirs = common::hwmon_dirs(fs, dir);
        let ghost all = common::hwmon_of(*fs, dir@);
        let mut i: usize = 0;
        proof {
            assert(all.len() == dirs@.len());
            assert(head + all_hwmon_measurements(all.take(0)) =~= head);
        }
        while i < dirs.len()
            invariant
                i <= dirs@.len(),
                all == dirs@.map_values(|e: &HwmonEntry| *e),
                sensors::models(m@) == head + all_hwmon_measurements(all.take(i as int)),
            decreases dirs@.len() - i,
        {
            let ghost so_far = sensors::models(m@);
            push_hwmon(&mut m, dirs[i]);
            proof {
                let t = all.take(i + 1);
                assert(t.drop_last() =~= all.take(i as int));
                assert(t.last() == *dirs@[i as int]);
                assert(head + (all_hwmon_measurements(all.take(i as int)) + hwmon_measurements(t.last())) =~= so_far
                    + hwmon_measurements(t.last()));
            }
            i = i + 1;
        }
        let health = common::sensor_health(fs, dir, Vendor::Amd);
        let ghost so_far = sensors::models(m@);
        let ghost h = health@;
        m.push(health);
        proof {
            assert(all.take(all.len() as int) =~= all);
            assert(sensors::models(m@) =~= so_far + seq![h]);
            assert(head =~= bytes_gauge(
                *fs,
                dir@,
                "mem_info_vram_total"@,
                "accel.memory.vram.total"@,
                "Dedicated VRAM size reported by amdgpu (small on iGPUs)."@,
            ) + bytes_gauge(*fs, dir@, "mem_info_vram_used"@, "accel.memory.vram.used"@, "Used VRAM bytes."@)
                + bytes_gauge(
                *fs,
                dir@,
                "mem_info_gtt_total"@,
                "accel.memory.gtt.total"@,
                "GTT (host aperture) size — this is the UMA carrier on iGPUs."@,
            ) + bytes_gauge(*fs, dir@, "mem_info_gtt_used"@, "accel.memory.gtt.used"@, "Used GTT bytes."@)
                + bytes_gauge(
                *fs,
                dir@,
                "mem_info_visible_vram_total"@,
                "accel.memory.visible_vram.total"@,
                "CPU-visible portion of VRAM (BAR1/Resizable-BAR aperture)."@,
            ) + common::gauge(
                "accel.utilization"@,
                "1"@,
                "Approximate GPU busy fraction (gpu_busy_percent / 100)."@,
                file_u64(*fs, dir@, "gpu_busy_percent"@),
                100,
            ));
        }
        Snapshot { measurements: m }
    }
}

} // verus!
