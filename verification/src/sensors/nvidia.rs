//! Nvidia accelerators, as far as sysfs and proc show them. Without the
//! vendor's library that is who they are and how much memory they have, not
//! what they are doing.

use super::amd;
use super::common;
use super::common::Sysfs;
use super::{Accelerator, AcceleratorId, Coverage, IdModel, Measurement, MeasurementModel, MemoryKind};
use super::{AcceleratorSensor, Snapshot, Vendor};
use crate::config;
use crate::scan;
use crate::sensors;
use crate::text;
use crate::textmap;
use crate::textmap::TextMap;
use vstd::prelude::*;

verus! {

/// A region up to this size is no card's memory: four mebibytes.
pub const BAR1_FLOOR: u64 = 4_194_304;

/// The backend that reads what the Nvidia driver shows.
pub struct NvidiaSysfsSensor;

// ---------------------------------------------------------------------
// Model names
// ---------------------------------------------------------------------

/// The value of the first of the lines `key: value` with the given key.
pub open spec fn info_field(lines: Seq<Seq<char>>, key: Seq<char>) -> Option<Seq<char>>
    decreases lines.len(),
{
    if lines.len() == 0 {
        None
    } else {
        match scan::split_once_of(lines[0], ':') {
            Some((k, v)) => if scan::trim_space(k) == key {
                Some(scan::trim_space(v))
            } else {
                info_field(lines.drop_first(), key)
            },
            None => info_field(lines.drop_first(), key),
        }
    }
}

/// The value that the `information` file `info` gives for `key`.
pub fn parse_nvidia_info_field(info: &str, key: &str) -> (r: Option<String>)
    ensures
        text::opt_text(r) == info_field(scan::lines_of(info@), key@),
{
    let lines = scan::lines(info);
    let ghost all = scan::lines_of(info@);
    let mut i: usize = 0;
    proof {
        assert(all.skip(0) =~= all);
        assert(all.len() == lines@.len());
    }
    while i < lines.len()
        invariant
            i <= lines@.len(),
            all == scan::lines_of(info@),
            all == text::texts(lines@),
            info_field(all.skip(i as int), key@) == info_field(all, key@),
        decreases lines@.len() - i,
    {
        proof {
            assert(all.skip(i as int)[0] == lines@[i as int]@);
            assert(all.skip(i as int).drop_first() =~= all.skip(i + 1));
        }
        match scan::split_once(lines[i].as_str(), ':') {
            Some((k, v)) => {
                if text::same(scan::trim(k.as_str()).as_str(), key) {
                    return Some(scan::trim(v.as_str()));
                }
            },
            None => {},
        }
        i = i + 1;
    }
    assert(all.skip(i as int) =~= Seq::empty());
    None
}

/// The model names by PCI address in lower case, from the directories under
/// `/proc/driver/nvidia/gpus`, each with its `information` file. Of two
/// directories that differ in letter case the later one counts.
pub open spec fn models_of(gpus: Seq<(String, Option<String>)>) -> Map<Seq<char>, Seq<char>>
    decreases gpus.len(),
{
    if gpus.len() == 0 {
        Map::empty()
    } else {
        let head = models_of(gpus.drop_last());
        match gpus.last().1 {
            Some(info) => match info_field(scan::lines_of(info@), "Model"@) {
                Some(model) => head.insert(scan::lower_text(gpus.last().0@), model),
                None => head,
            },
            None => head,
        }
    }
}

/// The model names by PCI address in lower case.
pub fn read_proc_nvidia_models(gpus: &Vec<(String, Option<String>)>) -> (r: TextMap<String>)
    ensures
        textmap::text_values(r) == models_of(gpus@),
{
    let mut out: TextMap<String> = TextMap::new();
    assert(textmap::text_values(out) =~= Map::empty());
    let mut i: usize = 0;
    while i < gpus.len()
        invariant
            i <= gpus@.len(),
            textmap::text_values(out) == models_of(gpus@.take(i as int)),
        decreases gpus@.len() - i,
    {
        proof {
            let t = gpus@.take(i + 1);
            assert(t.drop_last() =~= gpus@.take(i as int));
            assert(t.last() == gpus@[i as int]);
        }
        match &gpus[i].1 {
            Some(info) => {
                match parse_nvidia_info_field(info.as_str(), "Model") {
                    Some(model) => {
                        let ghost before = textmap::text_values(out);
                        let key = scan::to_lower(gpus[i].0.as_str());
                        let ghost k = key@;
                        let ghost v = model@;
                        out.insert(key, model);
                        assert(textmap::text_values(out) =~= before.insert(k, v));
                    },
                    None => {},
                }
            },
            None => {},
        }
        i = i + 1;
    }
    assert(gpus@.take(gpus@.len() as int) =~= gpus@);
    out
}

// ---------------------------------------------------------------------
// Accelerators
// ---------------------------------------------------------------------

/// The model name of the card at `pci_addr`.
pub open spec fn model_of(
    proc_models: Map<Seq<char>, Seq<char>>,
    pci_addr: Seq<char>,
    device_id: nat,
) -> Seq<char> {
    let key = scan::lower_text(pci_addr);
    if proc_models.contains_key(key) {
        proc_models[key]
    } else {
        sensors::device_name("Nvidia"@, device_id)
    }
}

/// Where a card's memory is, and how much there is, by the size of its
/// second PCI region.
pub open spec fn memory_of(bar1: u64) -> (MemoryKind, Option<u64>) {
    if bar1 > BAR1_FLOOR {
        (MemoryKind::Dedicated, Some(bar1))
    } else {
        (MemoryKind::Unknown, None)
    }
}

/// `r` is what the files in `device_dir` say of the card with minor
/// `drm_index`.
pub open spec fn describes(fs: Sysfs, drm_index: u32, device_dir: String, proc_models: Map<Seq<char>, Seq<char>>, r: Accelerator) -> bool {
    &&& r.id@ == (IdModel {
        vendor: Vendor::Nvidia,
        drm_index,
        pci_addr: config::value_or(common::pci_addr_of(device_dir@), Seq::empty()),
    })
    &&& r.model@ == model_of(
        proc_models,
        r.id.pci_addr@,
        amd::or_zero(common::hex_u16_in(fs.file(device_dir@, "device"@))),
    )
    &&& (r.memory_kind, r.memory_total_bytes) == memory_of(common::pci_bar(fs, device_dir@, 1))
    &&& match r.numa_node {
        Some(n) => common::i32_in(fs.file(device_dir@, "numa_node"@)) == Some(n as int),
        None => common::i32_in(fs.file(device_dir@, "numa_node"@)) is None,
    }
    &&& common::ints(r.local_cpus@) == common::local_cpus_of(fs, device_dir@)
    &&& r.iommu_group is None
    &&& r.coverage == Coverage::IdentificationOnly
    &&& r.fabric_domain is None
    &&& !r.partitioned
    &&& r.device_dir == device_dir
}

/// The accelerator of the card with minor `drm_index` in `device_dir`.
pub fn build_accelerator(
    fs: &Sysfs,
    drm_index: u32,
    device_dir: String,
    proc_models: &TextMap<String>,
) -> (r: Accelerator)
    ensures
        describes(*fs, drm_index, device_dir, textmap::text_values(*proc_models), r),
{
    let dir = device_dir.as_str();
    let device_id: u16 = match common::read_hex_u16(fs.read(dir, "device")) {
        Some(n) => n,
        None => 0,
    };
    let pci_addr = match common::pci_addr_from_device_dir(dir) {
        Some(s) => s,
        None => {
            let s = String::new();
            assert(s@ =~= Seq::empty());
            s
        },
    };
    let model = match proc_models.get(scan::to_lower(pci_addr.as_str()).as_str()) {
        Some(s) => s.clone(),
        None => sensors::unnamed_device("Nvidia", device_id),
    };
    let bars = common::read_pci_bars(fs, dir);
    let bar1: u64 = if bars.len() > 1 {
        bars[1]
    } else {
        0
    };
    let (memory_kind, memory_total_bytes) = if bar1 > BAR1_FLOOR {
        (MemoryKind::Dedicated, Some(bar1))
    } else {
        (MemoryKind::Unknown, None)
    };
    Accelerator {
        id: AcceleratorId { vendor: Vendor::Nvidia, drm_index, pci_addr },
        model,
        memory_kind,
        memory_total_bytes,
        numa_node: common::read_i32(fs.read(dir, "numa_node")),
        local_cpus: common::read_local_cpus(fs, dir),
        iommu_group: None,
        coverage: Coverage::IdentificationOnly,
        fabric_domain: None,
        partitioned: false,
        device_dir,
    }
}

/// The accelerators are those of the vendor's cards, in order.
pub open spec fn are_cards(fs: Sysfs, cards: Seq<(u32, String)>, r: Seq<Accelerator>) -> bool {
    let own = common::cards_of_vendor(fs, cards, Vendor::Nvidia);
    &&& r.len() == own.len()
    &&& forall|i: int|
        0 <= i < r.len() ==> describes(fs, own[i].0, own[i].1, models_of(fs.nvidia_gpus@), #[trigger] r[i])
}

/// What a snapshot of an Nvidia accelerator holds.
pub open spec fn snapshot_of(fs: Sysfs, dir: Seq<char>, memory_total_bytes: Option<u64>) -> Seq<
    MeasurementModel,
> {
    common::gauge(
        "accel.memory.dedicated.total"@,
        "By"@,
        "Dedicated VRAM total (from PCI BAR1; sysfs-only path)."@,
        config::opt_nat(memory_total_bytes),
        1,
    ) + common::gauge(
        "accel.temperature"@,
        "Cel"@,
        "Edge temperature from open-driver hwmon."@,
        common::first_temperature(common::hwmon_of(fs, dir)),
        1000,
    ) + seq![common::health_of(fs, dir, Vendor::Nvidia)]
}

impl AcceleratorSensor for NvidiaSysfsSensor {
    fn vendor(&self) -> (r: Vendor)
        ensures
            r == Vendor::Nvidia,
    {
        Vendor::Nvidia
    }

    fn enumerate(&self, fs: &Sysfs, cards: &Vec<(u32, String)>) -> (r: Vec<Accelerator>)
        ensures
            are_cards(*fs, cards@, r@),
    {
        let proc_models = read_proc_nvidia_models(&fs.nvidia_gpus);
        let build = |drm_index: u32, device_dir: String| -> (a: Accelerator)
            ensures
                describes(*fs, drm_index, device_dir, models_of(fs.nvidia_gpus@), a),
            {
                build_accelerator(fs, drm_index, device_dir, &proc_models)
            };
        common::enumerate_for_vendor(fs, Vendor::Nvidia, cards, build)
    }

    fn snapshot(&self, fs: &Sysfs, accel: &Accelerator) -> (r: Snapshot)
        ensures
            sensors::models(r.measurements@) == snapshot_of(
                *fs,
                accel.device_dir@,
                accel.memory_total_bytes,
            ),
    {
        let dir = accel.device_dir.as_str();
        let mut m: Vec<Measurement> = Vec::new();
        assert(sensors::models(m@) =~= Seq::empty());
        common::push_gauge(
            &mut m,
            "accel.memory.dedicated.total",
            "By",
            "Dedicated VRAM total (from PCI BAR1; sysfs-only path).",
            accel.memory_total_bytes,
            1,
        );
        let ghost head = sensors::models(m@);
        let ghost mut temp: Seq<MeasurementModel> = Seq::empty();
        match common::hwmon_temperature_celsius(fs, dir) {
            Some(t) => {
                let measured = common::measurement(
                    "accel.temperature",
                    "Cel",
                    "Edge temperature from open-driver hwmon.",
                    t,
                );
                proof {
                    temp = seq![measured@];
                }
                m.push(measured);
                assert(sensors::models(m@) =~= head + temp);
            },
            None => {
                assert(head + temp =~= head);
            },
        }
        let health = common::sensor_health(fs, dir, Vendor::Nvidia);
        let ghost so_far = sensors::models(m@);
        let ghost h = health@;
        m.push(health);
        proof {
            assert(sensors::models(m@) =~= so_far + seq![h]);
            assert(sensors::models(m@) =~= snapshot_of(*fs, dir@, accel.memory_total_bytes));
        }
        Snapshot { measurements: m }
    }
}

} // verus!
