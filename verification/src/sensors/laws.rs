//! What enumeration and snapshots say of a node, file by file and metric by
//! metric.

use super::amd;
use super::common;
use super::common::{HwmonEntry, Sysfs};
use super::host;
use super::host::DiskBlocks;
use super::intel;
use super::nvidia;
use super::{Accelerator, Coverage, MeasurementModel, MemoryKind, Ratio, Vendor};
use crate::config;
use crate::laws;
use crate::number;
use crate::paths;
use crate::scan;
use crate::scan::CharClass;
use crate::sensors;
use crate::sorting;
use crate::text;
use vstd::prelude::*;

verus! {

// ---------------------------------------------------------------------
// Enumeration
// ---------------------------------------------------------------------

/// The number in a file of the device, zero where there is none.
pub open spec fn count_in(fs: Sysfs, dir: Seq<char>, name: Seq<char>) -> nat {
    match common::u64_in(fs.file(dir, name)) {
        Some(n) => n,
        None => 0,
    }
}

/// The device's file `vendor` names the vendor.
pub open spec fn is_made_by(fs: Sysfs, dir: Seq<char>, v: Vendor) -> bool {
    match common::hex_u16_in(fs.file(dir, "vendor"@)) {
        Some(id) => match v {
            Vendor::Amd => id == 0x1002,
            Vendor::Nvidia => id == 0x10de,
            Vendor::Intel => id == 0x8086,
            Vendor::Other => id != 0x1002 && id != 0x10de && id != 0x8086,
        },
        None => v == Vendor::Other,
    }
}

/// An accelerator that was found is one of the cards, made by its vendor.
pub open spec fn is_card(fs: Sysfs, cards: Seq<(u32, String)>, a: Accelerator) -> bool {
    &&& cards.contains((a.id.drm_index, a.device_dir))
    &&& is_made_by(fs, a.device_dir@, a.id.vendor)
    &&& a.id.vendor != Vendor::Other
}

/// The accelerator of a card is among those found.
pub open spec fn is_found(r: Seq<Accelerator>, card: (u32, String)) -> bool {
    exists|i: int|
        0 <= i < r.len() && (#[trigger] r[i]).id.drm_index == card.0 && r[i].device_dir == card.1
}

proof fn lemma_vendor(fs: Sysfs, dir: Seq<char>, v: Vendor)
    ensures
        common::vendor_of(fs, dir) == v <==> is_made_by(fs, dir, v),
{
}

proof fn lemma_own_cards(fs: Sysfs, cards: Seq<(u32, String)>, v: Vendor, part: Seq<Accelerator>)
    requires
        part.len() == common::cards_of_vendor(fs, cards, v).len(),
        v != Vendor::Other,
        forall|i: int|
            0 <= i < part.len() ==> (#[trigger] part[i]).id.vendor == v && (
            part[i].id.drm_index,
            part[i].device_dir,
            ) == common::cards_of_vendor(fs, cards, v)[i],
    ensures
        forall|i: int| 0 <= i < part.len() ==> is_card(fs, cards, #[trigger] part[i]),
        forall|k: int|
            0 <= k < cards.len() && is_made_by(fs, (#[trigger] cards[k]).1@, v) ==> is_found(part, cards[k]),
{
    let own = common::cards_of_vendor(fs, cards, v);
    let keep = |c: (u32, String)| common::vendor_of(fs, c.1@) == v;
    assert forall|i: int| 0 <= i < part.len() implies is_card(fs, cards, #[trigger] part[i]) by {
        let c = own[i];
        assert(own.contains(c));
        sorting::lemma_filter_member(cards, keep, c);
        lemma_vendor(fs, c.1@, v);
    }
    assert forall|k: int| 0 <= k < cards.len() && is_made_by(fs, (#[trigger] cards[k]).1@, v) implies is_found(
        part,
        cards[k],
    ) by {
        let c = cards[k];
        lemma_vendor(fs, c.1@, v);
        assert(cards.contains(c));
        assert(own.contains(c));
        let i = choose|i: int| 0 <= i < own.len() && own[i] == c;
        assert(part[i].id.drm_index == c.0 && part[i].device_dir == c.1);
    }
}

/// Every card of a known vendor is enumerated, under its own minor and
/// directory and as its vendor's, and nothing else is.
pub proof fn law_known_cards_are_enumerated(
    fs: Sysfs,
    cards: Seq<(u32, String)>,
    all: Seq<Accelerator>,
    r: Seq<Accelerator>,
)
    requires
        sensors::enumerated(fs, cards, all),
        common::marked(fs, all, r),
    ensures
        forall|i: int| 0 <= i < r.len() ==> is_card(fs, cards, #[trigger] r[i]),
        forall|k: int|
            0 <= k < cards.len() && !is_made_by(fs, (#[trigger] cards[k]).1@, Vendor::Other) ==> is_found(
                r,
                cards[k],
            ),
{
    let (a, n, i) = choose|a: Seq<Accelerator>, n: Seq<Accelerator>, i: Seq<Accelerator>|
        all == a + n + i && #[trigger] amd::are_cards(fs, cards, a) && #[trigger] nvidia::are_cards(
            fs,
            cards,
            n,
        ) && #[trigger] intel::are_cards(fs, cards, i);
    lemma_own_cards(fs, cards, Vendor::Amd, a);
    lemma_own_cards(fs, cards, Vendor::Nvidia, n);
    lemma_own_cards(fs, cards, Vendor::Intel, i);
    assert forall|j: int| 0 <= j < r.len() implies is_card(fs, cards, #[trigger] r[j]) by {
        assert(r[j].id == all[j].id && r[j].device_dir == all[j].device_dir);
        if j < a.len() {
            assert(all[j] == a[j]);
        } else if j < a.len() + n.len() {
            assert(all[j] == n[j - a.len()]);
        } else {
            assert(all[j] == i[j - a.len() - n.len()]);
        }
    }
    assert forall|k: int|
        0 <= k < cards.len() && !is_made_by(fs, (#[trigger] cards[k]).1@, Vendor::Other) implies is_found(
        r,
        cards[k],
    ) by {
        let c = cards[k];
        if is_made_by(fs, c.1@, Vendor::Amd) {
            let j = choose|j: int| 0 <= j < a.len() && (#[trigger] a[j]).id.drm_index == c.0 && a[j].device_dir == c.1;
            assert(all[j] == a[j]);
            assert(r[j].id == all[j].id && r[j].device_dir == all[j].device_dir);
        } else if is_made_by(fs, c.1@, Vendor::Nvidia) {
            let j = choose|j: int| 0 <= j < n.len() && (#[trigger] n[j]).id.drm_index == c.0 && n[j].device_dir == c.1;
            assert(all[a.len() + j] == n[j]);
            assert(r[a.len() + j].id == all[a.len() + j].id);
        } else {
            let j = choose|j: int| 0 <= j < i.len() && (#[trigger] i[j]).id.drm_index == c.0 && i[j].device_dir == c.1;
            let at = a.len() + n.len() + j;
            assert(all[at] == i[j]);
            assert(r[at].id == all[at].id);
        }
    }
}

/// Of an AMD card the host's aperture counts where it is more than four
/// times the card's own memory, and the card's own memory counts otherwise;
/// without either, nothing is known.
pub proof fn law_amd_memory(fs: Sysfs, drm_index: u32, device_dir: String, r: Accelerator)
    requires
        amd::describes(fs, drm_index, device_dir, r),
    ensures
        ({
            let vram = count_in(fs, device_dir@, "mem_info_vram_total"@);
            let gtt = count_in(fs, device_dir@, "mem_info_gtt_total"@);
            &&& r.memory_kind == MemoryKind::Unified <==> gtt > 4 * vram
            &&& r.memory_kind == MemoryKind::Dedicated <==> vram > 0 && gtt <= 4 * vram
            &&& r.memory_kind == MemoryKind::Unknown <==> vram == 0 && gtt == 0
            &&& gtt > 4 * vram ==> r.memory_total_bytes is Some && r.memory_total_bytes->0 == gtt
            &&& vram > 0 && gtt <= 4 * vram ==> r.memory_total_bytes is Some && r.memory_total_bytes->0 == vram
            &&& vram == 0 && gtt == 0 ==> r.memory_total_bytes is None
        }),
{
}

/// An Nvidia card has the memory of its second PCI region, where that is
/// larger than four mebibytes.
pub proof fn law_nvidia_memory(
    fs: Sysfs,
    drm_index: u32,
    device_dir: String,
    names: Map<Seq<char>, Seq<char>>,
    r: Accelerator,
)
    requires
        nvidia::describes(fs, drm_index, device_dir, names, r),
    ensures
        ({
            let bars = common::pci_bars_of(fs, device_dir@);
            &&& bars.len() > 1 && bars[1] > 4 * 1024 * 1024 ==> r.memory_kind == MemoryKind::Dedicated
                && r.memory_total_bytes == Some(bars[1])
            &&& !(bars.len() > 1 && bars[1] > 4 * 1024 * 1024) ==> r.memory_kind == MemoryKind::Unknown
                && r.memory_total_bytes is None
        }),
{
}

/// An Intel card has memory of its own where its third PCI region is larger
/// than one gibibyte, and uses the host's otherwise.
pub proof fn law_intel_memory(fs: Sysfs, drm_index: u32, device_dir: String, r: Accelerator)
    requires
        intel::describes(fs, drm_index, device_dir, r),
    ensures
        ({
            let bars = common::pci_bars_of(fs, device_dir@);
            &&& bars.len() > 2 && bars[2] > 1024 * 1024 * 1024 ==> r.memory_kind == MemoryKind::Dedicated
                && r.memory_total_bytes == Some(bars[2])
            &&& !(bars.len() > 2 && bars[2] > 1024 * 1024 * 1024) ==> r.memory_kind == MemoryKind::Unified
                && r.memory_total_bytes is None
        }),
{
}

/// A PCI region that starts at `start` and ends at `end` has the bytes from
/// the one to the other; one that starts at zero is not mapped.
pub proof fn law_region_size(line: Seq<char>, start: u64, end: u64)
    requires
        scan::fields_of(line, scan::CharClass::AsciiSpace).len() >= 2,
        common::hex_field(scan::fields_of(line, scan::CharClass::AsciiSpace)[0]) == start,
        common::hex_field(scan::fields_of(line, scan::CharClass::AsciiSpace)[1]) == end,
    ensures
        start == 0 ==> common::bar_size(line) == 0,
        0 < start <= end ==> common::bar_size(line) == end - start + 1,
{
}

/// What the sensors of a vendor can say of a card, whatever its files hold:
/// Nvidia's only who it is and how much memory it has.
pub proof fn law_coverage(
    fs: Sysfs,
    n: u32,
    dir: String,
    names: Map<Seq<char>, Seq<char>>,
    amd_card: Accelerator,
    nvidia_card: Accelerator,
    intel_card: Accelerator,
)
    requires
        amd::describes(fs, n, dir, amd_card),
        nvidia::describes(fs, n, dir, names, nvidia_card),
        intel::describes(fs, n, dir, intel_card),
    ensures
        amd_card.coverage == Coverage::Full,
        nvidia_card.coverage == Coverage::IdentificationOnly,
        intel_card.coverage == Coverage::Full,
        amd_card.id.vendor == Vendor::Amd,
        nvidia_card.id.vendor == Vendor::Nvidia,
        intel_card.id.vendor == Vendor::Intel,
{
}

/// A card is placed by its own files: its NUMA node by `numa_node`, its
/// address by the name of its directory.
pub open spec fn is_placed(fs: Sysfs, dir: Seq<char>, r: Accelerator) -> bool {
    &&& match common::i32_in(fs.file(dir, "numa_node"@)) {
        Some(n) => r.numa_node is Some && r.numa_node->0 == n,
        None => r.numa_node is None,
    }
    &&& match paths::file_name_of(dir) {
        Some(name) => if name.contains(':') {
            r.id.pci_addr@ == name
        } else {
            r.id.pci_addr@.len() == 0
        },
        None => r.id.pci_addr@.len() == 0,
    }
    &&& match common::first_line_in(fs.file(dir, "local_cpulist"@)) {
        Some(list) => common::ints(r.local_cpus@) == common::cpulist(list),
        None => r.local_cpus@.len() == 0,
    }
}

proof fn lemma_placed(fs: Sysfs, dir: Seq<char>, r: Accelerator)
    requires
        r.id.pci_addr@ == config::value_or(common::pci_addr_of(dir), Seq::empty()),
        match r.numa_node {
            Some(n) => common::i32_in(fs.file(dir, "numa_node"@)) == Some(n as int),
            None => common::i32_in(fs.file(dir, "numa_node"@)) is None,
        },
        common::ints(r.local_cpus@) == common::local_cpus_of(fs, dir),
    ensures
        is_placed(fs, dir, r),
{
    assert(common::ints(r.local_cpus@).len() == r.local_cpus@.len());
    match paths::file_name_of(dir) {
        Some(name) => {
            if name.contains(':') {
                let i = choose|i: int| 0 <= i < name.len() && name[i] == ':';
                assert(name[i] == ':');
            }
        },
        None => {},
    }
}

/// Every card is placed by its own files, whoever made it.
pub proof fn law_cards_are_placed(fs: Sysfs, n: u32, dir: String, names: Map<Seq<char>, Seq<char>>, r: Accelerator)
    requires
        amd::describes(fs, n, dir, r) || nvidia::describes(fs, n, dir, names, r) || intel::describes(
            fs,
            n,
            dir,
            r,
        ),
    ensures
        is_placed(fs, dir@, r),
        r.id.drm_index == n,
        r.device_dir == dir,
        r.fabric_domain is None,
{
    lemma_placed(fs, dir@, r);
}

/// A card is marked as partitioned if and only if another one has the same
/// parent directory or it has virtual functions; nothing else of it changes.
pub proof fn law_partitions(fs: Sysfs, before: Seq<Accelerator>, after: Seq<Accelerator>, i: int)
    requires
        common::marked(fs, before, after),
        0 <= i < before.len(),
        !before[i].partitioned,
    ensures
        after.len() == before.len(),
        after[i].partitioned <==> (count_in(fs, before[i].device_dir@, "sriov_numvfs"@) > 0 || exists|j: int|
            0 <= j < before.len() && j != i && paths::parent_of(before[i].device_dir@) is Some
                && paths::parent_of((#[trigger] before[j]).device_dir@) == paths::parent_of(
                before[i].device_dir@,
            )),
        after[i].id == before[i].id && after[i].memory_kind == before[i].memory_kind
            && after[i].memory_total_bytes == before[i].memory_total_bytes && after[i].model == before[i].model
            && after[i].coverage == before[i].coverage && after[i].device_dir == before[i].device_dir,
{
}

// ---------------------------------------------------------------------
// Snapshots
// ---------------------------------------------------------------------

/// The values of the measurements with the given name, with their units.
pub open spec fn readings(s: Seq<MeasurementModel>, name: Seq<char>) -> Seq<(Ratio, Seq<char>)>
    decreases s.len(),
{
    if s.len() == 0 {
        Seq::empty()
    } else {
        let head = readings(s.drop_last(), name);
        if s.last().name == name {
            head.push((s.last().value, s.last().unit))
        } else {
            head
        }
    }
}

/// One reading of a number in a file, in parts of which `parts` make one
/// unit, or none where there is no number.
pub open spec fn reading(number: Option<nat>, parts: u64, unit: Seq<char>) -> Seq<(Ratio, Seq<char>)> {
    match number {
        Some(n) => seq![(Ratio { raw: n as u64, divisor: parts }, unit)],
        None => Seq::empty(),
    }
}

pub proof fn lemma_readings_join(a: Seq<MeasurementModel>, b: Seq<MeasurementModel>, name: Seq<char>)
    ensures
        readings(a + b, name) == readings(a, name) + readings(b, name),
    decreases b.len(),
{
    if b.len() == 0 {
        assert(a + b =~= a);
        assert(readings(a, name) + readings(b, name) =~= readings(a, name));
    } else {
        lemma_readings_join(a, b.drop_last(), name);
        assert((a + b).drop_last() =~= a + b.drop_last());
        assert((a + b).last() == b.last());
        assert(readings(a + b, name) =~= readings(a, name) + readings(b, name));
    }
}

proof fn lemma_one(m: MeasurementModel, name: Seq<char>)
    ensures
        readings(seq![m], name) == if m.name == name {
            seq![(m.value, m.unit)]
        } else {
            Seq::empty()
        },
{
    let s = seq![m];
    assert(s.drop_last() =~= Seq::empty());
    assert(readings(s.drop_last(), name) =~= Seq::empty());
    assert(Seq::<(Ratio, Seq<char>)>::empty().push((m.value, m.unit)) =~= seq![(m.value, m.unit)]);
}

pub proof fn lemma_gauge(
    of: Seq<char>,
    unit: Seq<char>,
    description: Seq<char>,
    value: Option<nat>,
    divisor: u64,
    name: Seq<char>,
)
    ensures
        readings(common::gauge(of, unit, description, value, divisor), name) == if of == name {
            reading(value, divisor, unit)
        } else {
            Seq::empty()
        },
{
    match value {
        Some(n) => {
            lemma_one(
                sensors::plain(of, unit, description, Ratio { raw: n as u64, divisor }),
                name,
            );
        },
        None => {
            assert(common::gauge(of, unit, description, value, divisor) =~= Seq::empty());
        },
    }
}

/// The names of the metrics of an accelerator differ.
proof fn lemma_names()
    ensures
        forall|i: int, j: int|
            0 <= i < 10 && 0 <= j < 10 && i != j ==> #[trigger] metric_name(i) != #[trigger] metric_name(j),
{
    reveal_strlit("accel.memory.vram.total");
    reveal_strlit("accel.memory.vram.used");
    reveal_strlit("accel.memory.gtt.total");
    reveal_strlit("accel.memory.gtt.used");
    reveal_strlit("accel.memory.visible_vram.total");
    reveal_strlit("accel.utilization");
    reveal_strlit("accel.temperature");
    reveal_strlit("accel.power.usage");
    reveal_strlit("accel.sensor.health");
    reveal_strlit("accel.memory.dedicated.total");
    assert forall|i: int, j: int| 0 <= i < 10 && 0 <= j < 10 && i != j implies #[trigger] metric_name(i)
        != #[trigger] metric_name(j) by {
        let (x, y) = (metric_name(i), metric_name(j));
        assert(x.len() != y.len() || x[13] != y[13] || x[6] != y[6] || x[17] != y[17]);
    }
}

spec fn metric_name(i: int) -> Seq<char> {
    if i == 0 {
        "accel.memory.vram.total"@
    } else if i == 1 {
        "accel.memory.vram.used"@
    } else if i == 2 {
        "accel.memory.gtt.total"@
    } else if i == 3 {
        "accel.memory.gtt.used"@
    } else if i == 4 {
        "accel.memory.visible_vram.total"@
    } else if i == 5 {
        "accel.utilization"@
    } else if i == 6 {
        "accel.temperature"@
    } else if i == 7 {
        "accel.power.usage"@
    } else if i == 8 {
        "accel.sensor.health"@
    } else {
        "accel.memory.dedicated.total"@
    }
}

/// The hwmon directories of a device: the entries of its `hwmon` directory
/// whose names begin with `hwmon`.
pub open spec fn hwmon_dirs(fs: Sysfs, dir: Seq<char>) -> Seq<HwmonEntry> {
    if fs.devices@.contains_key(dir) {
        fs.devices@[dir].hwmon@.filter(|e: HwmonEntry| scan::has_prefix(e.name@, "hwmon"@))
    } else {
        Seq::empty()
    }
}

/// The readings of one file of each of the directories, one after the other.
pub open spec fn hwmon_readings(hwmon: Seq<HwmonEntry>, file: Seq<char>, parts: u64, unit: Seq<char>) -> Seq<
    (Ratio, Seq<char>),
>
    decreases hwmon.len(),
{
    if hwmon.len() == 0 {
        Seq::empty()
    } else {
        hwmon_readings(hwmon.drop_last(), file, parts, unit) + reading(
            common::u64_in(common::content(hwmon.last().files, file)),
            parts,
            unit,
        )
    }
}

proof fn lemma_amd_hwmon(hwmon: Seq<HwmonEntry>, name: Seq<char>)
    ensures
        readings(amd::all_hwmon_measurements(hwmon), name) == if name == metric_name(6) {
            hwmon_readings(hwmon, "temp1_input"@, 1000, "Cel"@)
        } else if name == metric_name(7) {
            hwmon_readings(hwmon, "power1_average"@, 1_000_000, "W"@)
        } else {
            Seq::empty()
        },
    decreases hwmon.len(),
{
    lemma_names();
    if hwmon.len() > 0 {
        let hw = hwmon.last();
        let t = common::u64_in(common::content(hw.files, "temp1_input"@));
        lemma_amd_hwmon(hwmon.drop_last(), name);
        lemma_readings_join(
            amd::all_hwmon_measurements(hwmon.drop_last()),
            amd::hwmon_measurements(hw),
            name,
        );
        let power = common::gauge(
            "accel.power.usage"@,
            "W"@,
            "Average board power from hwmon power1_average."@,
            common::u64_in(common::content(hw.files, "power1_average"@)),
            1_000_000,
        );
        let temp: Seq<MeasurementModel> = if t is Some {
            seq![amd::hwmon_measurements(hw)[0]]
        } else {
            Seq::empty()
        };
        assert(amd::hwmon_measurements(hw) =~= temp + power);
        lemma_readings_join(temp, power, name);
        lemma_gauge(
            "accel.power.usage"@,
            "W"@,
            "Average board power from hwmon power1_average."@,
            common::u64_in(common::content(hw.files, "power1_average"@)),
            1_000_000,
            name,
        );
        if t is Some {
            lemma_one(temp[0], name);
        }
        assert(metric_name(6) != metric_name(7));
        assert(readings(amd::hwmon_measurements(hw), name) =~= if name == metric_name(6) {
            reading(t, 1000, "Cel"@)
        } else if name == metric_name(7) {
            reading(common::u64_in(common::content(hw.files, "power1_average"@)), 1_000_000, "W"@)
        } else {
            Seq::empty()
        });
    }
    assert(Seq::<(Ratio, Seq<char>)>::empty() + Seq::<(Ratio, Seq<char>)>::empty() =~= Seq::empty());
}

/// The readings of one metric in a snapshot of an AMD accelerator, part by
/// part.
proof fn lemma_amd_parts(fs: Sysfs, dir: Seq<char>, name: Seq<char>)
    ensures
        readings(amd::snapshot_of(fs, dir), name) == gauge_readings(fs, dir, 0, name) + gauge_readings(
            fs,
            dir,
            1,
            name,
        ) + gauge_readings(fs, dir, 2, name) + gauge_readings(fs, dir, 3, name) + gauge_readings(
            fs,
            dir,
            4,
            name,
        ) + gauge_readings(fs, dir, 5, name) + readings(
            amd::all_hwmon_measurements(common::hwmon_of(fs, dir)),
            name,
        ) + readings(seq![common::health_of(fs, dir, Vendor::Amd)], name),
{
    let a = common::gauge(
        "accel.memory.vram.total"@,
        "By"@,
        "Dedicated VRAM size reported by amdgpu (small on iGPUs)."@,
        common::u64_in(fs.file(dir, "mem_info_vram_total"@)),
        1,
    );
    let b = common::gauge(
        "accel.memory.vram.used"@,
        "By"@,
        "Used VRAM bytes."@,
        common::u64_in(fs.file(dir, "mem_info_vram_used"@)),
        1,
    );
    let c = common::gauge(
        "accel.memory.gtt.total"@,
        "By"@,
        "GTT (host aperture) size — this is the UMA carrier on iGPUs."@,
        common::u64_in(fs.file(dir, "mem_info_gtt_total"@)),
        1,
    );
    let d = common::gauge(
        "accel.memory.gtt.used"@,
        "By"@,
        "Used GTT bytes."@,
        common::u64_in(fs.file(dir, "mem_info_gtt_used"@)),
        1,
    );
    let e = common::gauge(
        "accel.memory.visible_vram.total"@,
        "By"@,
        "CPU-visible portion of VRAM (BAR1/Resizable-BAR aperture)."@,
        common::u64_in(fs.file(dir, "mem_info_visible_vram_total"@)),
        1,
    );
    let f = common::gauge(
        "accel.utilization"@,
        "1"@,
        "Approximate GPU busy fraction (gpu_busy_percent / 100)."@,
        common::u64_in(fs.file(dir, "gpu_busy_percent"@)),
        100,
    );
    let g = amd::all_hwmon_measurements(common::hwmon_of(fs, dir));
    let h = seq![common::health_of(fs, dir, Vendor::Amd)];
    assert(amd::snapshot_of(fs, dir) == a + b + c + d + e + f + g + h);
    lemma_readings_join(a + b + c + d + e + f + g, h, name);
    lemma_readings_join(a + b + c + d + e + f, g, name);
    lemma_readings_join(a + b + c + d + e, f, name);
    lemma_readings_join(a + b + c + d, e, name);
    lemma_readings_join(a + b + c, d, name);
    lemma_readings_join(a + b, c, name);
    lemma_readings_join(a, b, name);
    lemma_gauge(
        "accel.memory.vram.total"@,
        "By"@,
        "Dedicated VRAM size reported by amdgpu (small on iGPUs)."@,
        common::u64_in(fs.file(dir, "mem_info_vram_total"@)),
        1,
        name,
    );
    lemma_gauge(
        "accel.memory.vram.used"@,
        "By"@,
        "Used VRAM bytes."@,
        common::u64_in(fs.file(dir, "mem_info_vram_used"@)),
        1,
        name,
    );
    lemma_gauge(
        "accel.memory.gtt.total"@,
        "By"@,
        "GTT (host aperture) size — this is the UMA carrier on iGPUs."@,
        common::u64_in(fs.file(dir, "mem_info_gtt_total"@)),
        1,
        name,
    );
    lemma_gauge(
        "accel.memory.gtt.used"@,
        "By"@,
        "Used GTT bytes."@,
        common::u64_in(fs.file(dir, "mem_info_gtt_used"@)),
        1,
        name,
    );
    lemma_gauge(
        "accel.memory.visible_vram.total"@,
        "By"@,
        "CPU-visible portion of VRAM (BAR1/Resizable-BAR aperture)."@,
        common::u64_in(fs.file(dir, "mem_info_visible_vram_total"@)),
        1,
        name,
    );
    lemma_gauge(
        "accel.utilization"@,
        "1"@,
        "Approximate GPU busy fraction (gpu_busy_percent / 100)."@,
        common::u64_in(fs.file(dir, "gpu_busy_percent"@)),
        100,
        name,
    );
}

/// The readings of the metric with the given number, where it has the name.
spec fn gauge_readings(fs: Sysfs, dir: Seq<char>, i: int, name: Seq<char>) -> Seq<(Ratio, Seq<char>)> {
    if metric_name(i) != name {
        Seq::empty()
    } else if i == 0 {
        reading(common::u64_in(fs.file(dir, "mem_info_vram_total"@)), 1, "By"@)
    } else if i == 1 {
        reading(common::u64_in(fs.file(dir, "mem_info_vram_used"@)), 1, "By"@)
    } else if i == 2 {
        reading(common::u64_in(fs.file(dir, "mem_info_gtt_total"@)), 1, "By"@)
    } else if i == 3 {
        reading(common::u64_in(fs.file(dir, "mem_info_gtt_used"@)), 1, "By"@)
    } else if i == 4 {
        reading(common::u64_in(fs.file(dir, "mem_info_visible_vram_total"@)), 1, "By"@)
    } else {
        reading(common::u64_in(fs.file(dir, "gpu_busy_percent"@)), 100, "1"@)
    }
}

/// The reading of a sensor's health: one where the device says that it is
/// the vendor's, zero otherwise.
pub open spec fn health_reading(fs: Sysfs, dir: Seq<char>, v: Vendor) -> (Ratio, Seq<char>) {
    (
        Ratio {
            raw: if is_made_by(fs, dir, v) {
                1
            } else {
                0
            },
            divisor: 1,
        },
        "1"@,
    )
}

/// A snapshot of an AMD accelerator reports the number in the file of each
/// metric under that metric's name, once, and nothing under it where the file
/// holds no number; and it reports the temperature and the power of each of
/// the device's hwmon directories.
pub proof fn law_amd_readings(fs: Sysfs, a: Accelerator)
    requires
        a.id.vendor == Vendor::Amd,
    ensures
        sensors::snapshot_of(fs, a) is Some,
        ({
            let s = sensors::snapshot_of(fs, a)->0;
            let dir = a.device_dir@;
            &&& readings(s, "accel.memory.vram.total"@) == reading(
                common::u64_in(fs.file(dir, "mem_info_vram_total"@)),
                1,
                "By"@,
            )
            &&& readings(s, "accel.memory.vram.used"@) == reading(
                common::u64_in(fs.file(dir, "mem_info_vram_used"@)),
                1,
                "By"@,
            )
            &&& readings(s, "accel.memory.gtt.total"@) == reading(
                common::u64_in(fs.file(dir, "mem_info_gtt_total"@)),
                1,
                "By"@,
            )
            &&& readings(s, "accel.memory.gtt.used"@) == reading(
                common::u64_in(fs.file(dir, "mem_info_gtt_used"@)),
                1,
                "By"@,
            )
            &&& readings(s, "accel.memory.visible_vram.total"@) == reading(
                common::u64_in(fs.file(dir, "mem_info_visible_vram_total"@)),
                1,
                "By"@,
            )
            &&& readings(s, "accel.utilization"@) == reading(
                common::u64_in(fs.file(dir, "gpu_busy_percent"@)),
                100,
                "1"@,
            )
            &&& readings(s, "accel.temperature"@) == hwmon_readings(
                hwmon_dirs(fs, dir),
                "temp1_input"@,
                1000,
                "Cel"@,
            )
            &&& readings(s, "accel.power.usage"@) == hwmon_readings(
                hwmon_dirs(fs, dir),
                "power1_average"@,
                1_000_000,
                "W"@,
            )
            &&& readings(s, "accel.sensor.health"@) == seq![health_reading(fs, dir, Vendor::Amd)]
        }),
{
    let dir = a.device_dir@;
    lemma_names();
    lemma_vendor(fs, dir, Vendor::Amd);
    assert(hwmon_dirs(fs, dir) =~= common::hwmon_of(fs, dir));
    assert forall|i: int| 0 <= i < 9 implies readings(amd::snapshot_of(fs, dir), #[trigger] metric_name(i))
        =~= amd_expected(fs, dir, i) by {
        let name = metric_name(i);
        lemma_amd_parts(fs, dir, name);
        lemma_amd_hwmon(common::hwmon_of(fs, dir), name);
        lemma_one(common::health_of(fs, dir, Vendor::Amd), name);
        assert(metric_name(8) == "accel.sensor.health"@);
        assert forall|j: int| 0 <= j < 9 && j != i implies #[trigger] metric_name(j) != name by {}
        assert(gauge_readings(fs, dir, 0, name) + gauge_readings(fs, dir, 1, name) + gauge_readings(
            fs,
            dir,
            2,
            name,
        ) + gauge_readings(fs, dir, 3, name) + gauge_readings(fs, dir, 4, name) + gauge_readings(
            fs,
            dir,
            5,
            name,
        ) + readings(amd::all_hwmon_measurements(common::hwmon_of(fs, dir)), name) + readings(
            seq![common::health_of(fs, dir, Vendor::Amd)],
            name,
        ) =~= amd_expected(fs, dir, i));
    }
    assert(metric_name(0) == "accel.memory.vram.total"@);
    assert(metric_name(1) == "accel.memory.vram.used"@);
    assert(metric_name(2) == "accel.memory.gtt.total"@);
    assert(metric_name(3) == "accel.memory.gtt.used"@);
    assert(metric_name(4) == "accel.memory.visible_vram.total"@);
    assert(metric_name(5) == "accel.utilization"@);
    assert(metric_name(6) == "accel.temperature"@);
    assert(metric_name(7) == "accel.power.usage"@);
    assert(metric_name(8) == "accel.sensor.health"@);
}

spec fn amd_expected(fs: Sysfs, dir: Seq<char>, i: int) -> Seq<(Ratio, Seq<char>)> {
    if i == 6 {
        hwmon_readings(hwmon_dirs(fs, dir), "temp1_input"@, 1000, "Cel"@)
    } else if i == 7 {
        hwmon_readings(hwmon_dirs(fs, dir), "power1_average"@, 1_000_000, "W"@)
    } else if i == 8 {
        seq![health_reading(fs, dir, Vendor::Amd)]
    } else {
        gauge_readings(fs, dir, i, metric_name(i))
    }
}

proof fn lemma_intel_hwmon(hwmon: Seq<HwmonEntry>, name: Seq<char>)
    ensures
        readings(intel::all_hwmon_measurements(hwmon), name) == if name == metric_name(6) {
            hwmon_readings(hwmon, "temp1_input"@, 1000, "Cel"@)
        } else if name == metric_name(7) {
            hwmon_readings(hwmon, "power1_input"@, 1_000_000, "W"@)
        } else {
            Seq::empty()
        },
    decreases hwmon.len(),
{
    lemma_names();
    assert(metric_name(6) != metric_name(7));
    if hwmon.len() > 0 {
        let hw = hwmon.last();
        let t = common::u64_in(common::content(hw.files, "temp1_input"@));
        let p = common::u64_in(common::content(hw.files, "power1_input"@));
        let temp = common::gauge(
            "accel.temperature"@,
            "Cel"@,
            "GPU temperature from i915/Xe hwmon."@,
            t,
            1000,
        );
        let power = common::gauge(
            "accel.power.usage"@,
            "W"@,
            "Package power from i915/Xe hwmon (µW)."@,
            p,
            1_000_000,
        );
        lemma_intel_hwmon(hwmon.drop_last(), name);
        lemma_readings_join(
            intel::all_hwmon_measurements(hwmon.drop_last()),
            intel::hwmon_measurements(hw),
            name,
        );
        assert(intel::hwmon_measurements(hw) == temp + power);
        lemma_readings_join(temp, power, name);
        lemma_gauge("accel.temperature"@, "Cel"@, "GPU temperature from i915/Xe hwmon."@, t, 1000, name);
        lemma_gauge(
            "accel.power.usage"@,
            "W"@,
            "Package power from i915/Xe hwmon (µW)."@,
            p,
            1_000_000,
            name,
        );
        assert(readings(intel::hwmon_measurements(hw), name) =~= if name == metric_name(6) {
            reading(t, 1000, "Cel"@)
        } else if name == metric_name(7) {
            reading(p, 1_000_000, "W"@)
        } else {
            Seq::empty()
        });
    }
    assert(Seq::<(Ratio, Seq<char>)>::empty() + Seq::<(Ratio, Seq<char>)>::empty() =~= Seq::empty());
}

/// The number of bytes, where there is one.
pub open spec fn bytes_of(o: Option<u64>) -> Option<nat> {
    match o {
        Some(n) => Some(n as nat),
        None => None,
    }
}

/// A snapshot of an Intel accelerator reports the memory that the accelerator
/// was enumerated with, the temperature and the power of each of the device's
/// hwmon directories, and the sensor's health.
pub proof fn law_intel_readings(fs: Sysfs, a: Accelerator)
    requires
        a.id.vendor == Vendor::Intel,
    ensures
        sensors::snapshot_of(fs, a) is Some,
        ({
            let s = sensors::snapshot_of(fs, a)->0;
            let dir = a.device_dir@;
            &&& readings(s, "accel.memory.dedicated.total"@) == reading(
                bytes_of(a.memory_total_bytes),
                1,
                "By"@,
            )
            &&& readings(s, "accel.temperature"@) == hwmon_readings(
                hwmon_dirs(fs, dir),
                "temp1_input"@,
                1000,
                "Cel"@,
            )
            &&& readings(s, "accel.power.usage"@) == hwmon_readings(
                hwmon_dirs(fs, dir),
                "power1_input"@,
                1_000_000,
                "W"@,
            )
            &&& readings(s, "accel.sensor.health"@) == seq![health_reading(fs, dir, Vendor::Intel)]
        }),
{
    let dir = a.device_dir@;
    lemma_names();
    lemma_vendor(fs, dir, Vendor::Intel);
    assert(hwmon_dirs(fs, dir) =~= common::hwmon_of(fs, dir));
    let m = config::opt_nat(a.memory_total_bytes);
    let x = common::gauge(
        "accel.memory.dedicated.total"@,
        "By"@,
        "Dedicated VRAM total (from PCI BAR2 on Intel discrete)."@,
        m,
        1,
    );
    let y = intel::all_hwmon_measurements(common::hwmon_of(fs, dir));
    let z = seq![common::health_of(fs, dir, Vendor::Intel)];
    let s = intel::snapshot_of(fs, dir, a.memory_total_bytes);
    assert(s == x + y + z);
    assert forall|i: int| 6 <= i < 10 implies readings(s, #[trigger] metric_name(i)) =~= if i == 6 {
        hwmon_readings(hwmon_dirs(fs, dir), "temp1_input"@, 1000, "Cel"@)
    } else if i == 7 {
        hwmon_readings(hwmon_dirs(fs, dir), "power1_input"@, 1_000_000, "W"@)
    } else if i == 8 {
        seq![health_reading(fs, dir, Vendor::Intel)]
    } else {
        reading(bytes_of(a.memory_total_bytes), 1, "By"@)
    } by {
        let name = metric_name(i);
        lemma_readings_join(x + y, z, name);
        lemma_readings_join(x, y, name);
        lemma_gauge(
            "accel.memory.dedicated.total"@,
            "By"@,
            "Dedicated VRAM total (from PCI BAR2 on Intel discrete)."@,
            m,
            1,
            name,
        );
        lemma_intel_hwmon(common::hwmon_of(fs, dir), name);
        lemma_one(common::health_of(fs, dir, Vendor::Intel), name);
        assert(metric_name(8) == "accel.sensor.health"@);
        assert(metric_name(9) == "accel.memory.dedicated.total"@);
        assert forall|j: int| 0 <= j < 10 && j != i implies #[trigger] metric_name(j) != name by {}
    }
    assert(metric_name(6) == "accel.temperature"@);
    assert(metric_name(7) == "accel.power.usage"@);
    assert(metric_name(8) == "accel.sensor.health"@);
    assert(metric_name(9) == "accel.memory.dedicated.total"@);
}

/// The directory has a temperature.
pub open spec fn temperature_in(e: HwmonEntry) -> Option<nat> {
    common::u64_in(common::content(e.files, "temp1_input"@))
}

proof fn lemma_first_temperature(hwmon: Seq<HwmonEntry>, i: int)
    requires
        0 <= i < hwmon.len(),
        temperature_in(hwmon[i]) is Some,
        forall|j: int| 0 <= j < i ==> temperature_in(#[trigger] hwmon[j]) is None,
    ensures
        common::first_temperature(hwmon) == temperature_in(hwmon[i]),
    decreases hwmon.len(),
{
    if i > 0 {
        assert(temperature_in(hwmon[0]) is None);
        let rest = hwmon.drop_first();
        assert forall|j: int| 0 <= j < i - 1 implies temperature_in(#[trigger] rest[j]) is None by {
            assert(rest[j] == hwmon[j + 1]);
        }
        lemma_first_temperature(rest, i - 1);
    }
}

proof fn lemma_no_temperature(hwmon: Seq<HwmonEntry>)
    requires
        forall|j: int| 0 <= j < hwmon.len() ==> temperature_in(#[trigger] hwmon[j]) is None,
    ensures
        common::first_temperature(hwmon) is None,
    decreases hwmon.len(),
{
    if hwmon.len() > 0 {
        assert(temperature_in(hwmon[0]) is None);
        let rest = hwmon.drop_first();
        assert forall|j: int| 0 <= j < rest.len() implies temperature_in(#[trigger] rest[j]) is None by {
            assert(rest[j] == hwmon[j + 1]);
        }
        lemma_no_temperature(rest);
    }
}

/// The temperature of a device is that of the first of its hwmon directories
/// that has one, in thousandths of a degree.
pub proof fn law_first_temperature(fs: Sysfs, dir: Seq<char>, i: int)
    ensures
        0 <= i < hwmon_dirs(fs, dir).len() && temperature_in(hwmon_dirs(fs, dir)[i]) is Some && (forall|j: int|
            0 <= j < i ==> temperature_in(#[trigger] hwmon_dirs(fs, dir)[j]) is None)
            ==> common::first_temperature(common::hwmon_of(fs, dir)) == temperature_in(hwmon_dirs(fs, dir)[i]),
        (forall|j: int| 0 <= j < hwmon_dirs(fs, dir).len() ==> temperature_in(#[trigger] hwmon_dirs(fs, dir)[j]) is None)
            ==> common::first_temperature(common::hwmon_of(fs, dir)) is None,
{
    let h = hwmon_dirs(fs, dir);
    assert(h =~= common::hwmon_of(fs, dir));
    if 0 <= i < h.len() && temperature_in(h[i]) is Some && (forall|j: int|
        0 <= j < i ==> temperature_in(#[trigger] h[j]) is None) {
        lemma_first_temperature(h, i);
    }
    if forall|j: int| 0 <= j < h.len() ==> temperature_in(#[trigger] h[j]) is None {
        lemma_no_temperature(h);
    }
}

/// A snapshot of an Nvidia accelerator reports the memory that the
/// accelerator was enumerated with, the device's first temperature, and the
/// sensor's health.
pub proof fn law_nvidia_readings(fs: Sysfs, a: Accelerator)
    requires
        a.id.vendor == Vendor::Nvidia,
    ensures
        sensors::snapshot_of(fs, a) is Some,
        ({
            let s = sensors::snapshot_of(fs, a)->0;
            let dir = a.device_dir@;
            &&& readings(s, "accel.memory.dedicated.total"@) == reading(
                bytes_of(a.memory_total_bytes),
                1,
                "By"@,
            )
            &&& readings(s, "accel.temperature"@) == reading(
                common::first_temperature(common::hwmon_of(fs, dir)),
                1000,
                "Cel"@,
            )
            &&& readings(s, "accel.sensor.health"@) == seq![health_reading(fs, dir, Vendor::Nvidia)]
        }),
{
    let dir = a.device_dir@;
    lemma_names();
    lemma_vendor(fs, dir, Vendor::Nvidia);
    let m = config::opt_nat(a.memory_total_bytes);
    let t = common::first_temperature(common::hwmon_of(fs, dir));
    let x = common::gauge(
        "accel.memory.dedicated.total"@,
        "By"@,
        "Dedicated VRAM total (from PCI BAR1; sysfs-only path)."@,
        m,
        1,
    );
    let y = common::gauge("accel.temperature"@, "Cel"@, "Edge temperature from open-driver hwmon."@, t, 1000);
    let z = seq![common::health_of(fs, dir, Vendor::Nvidia)];
    let s = nvidia::snapshot_of(fs, dir, a.memory_total_bytes);
    assert(s == x + y + z);
    assert forall|i: int| 6 <= i < 10 && i != 7 implies readings(s, #[trigger] metric_name(i)) =~= if i == 6 {
        reading(t, 1000, "Cel"@)
    } else if i == 8 {
        seq![health_reading(fs, dir, Vendor::Nvidia)]
    } else {
        reading(bytes_of(a.memory_total_bytes), 1, "By"@)
    } by {
        let name = metric_name(i);
        lemma_readings_join(x + y, z, name);
        lemma_readings_join(x, y, name);
        lemma_gauge(
            "accel.memory.dedicated.total"@,
            "By"@,
            "Dedicated VRAM total (from PCI BAR1; sysfs-only path)."@,
            m,
            1,
            name,
        );
        lemma_gauge("accel.temperature"@, "Cel"@, "Edge temperature from open-driver hwmon."@, t, 1000, name);
        lemma_one(common::health_of(fs, dir, Vendor::Nvidia), name);
        assert(metric_name(6) == "accel.temperature"@);
        assert(metric_name(8) == "accel.sensor.health"@);
        assert(metric_name(9) == "accel.memory.dedicated.total"@);
        assert forall|j: int| 0 <= j < 10 && j != i implies #[trigger] metric_name(j) != name by {}
    }
    assert(metric_name(6) == "accel.temperature"@);
    assert(metric_name(8) == "accel.sensor.health"@);
    assert(metric_name(9) == "accel.memory.dedicated.total"@);
}

/// An accelerator of no known vendor has no snapshot.
pub proof fn law_unknown_vendor_has_no_snapshot(fs: Sysfs, a: Accelerator)
    ensures
        sensors::snapshot_of(fs, a) is None <==> a.id.vendor == Vendor::Other,
{
}

/// An AMD card has the product name that its files give it, where they give
/// one.
pub proof fn law_amd_model(fs: Sysfs, n: u32, dir: String, r: Accelerator)
    requires
        amd::describes(fs, n, dir, r),
        common::first_line_in(fs.file(dir@, "product_name"@)) is Some,
        common::first_line_in(fs.file(dir@, "product_name"@))->0.len() > 0,
    ensures
        r.model@ == common::first_line_in(fs.file(dir@, "product_name"@))->0,
{
}

/// An Nvidia card has the model name that the driver gives for its address,
/// whatever the letter case of either.
pub proof fn law_nvidia_model(
    fs: Sysfs,
    n: u32,
    dir: String,
    r: Accelerator,
    gpus: Seq<(String, Option<String>)>,
    name: String,
    info: String,
    model: Seq<char>,
)
    requires
        nvidia::describes(fs, n, dir, nvidia::models_of(gpus.push((name, Some(info)))), r),
        scan::lower_text(name@) == scan::lower_text(r.id.pci_addr@),
        nvidia::info_field(scan::lines_of(info@), "Model"@) == Some(model),
    ensures
        r.model@ == model,
{
    let all = gpus.push((name, Some(info)));
    assert(all.drop_last() =~= gpus);
}

// ---------------------------------------------------------------------
// The host
// ---------------------------------------------------------------------

/// A number of parts of so many bytes, as far as 64 bits go.
pub open spec fn in_bytes(count: nat, each: nat, r: u64) -> bool {
    if count * each <= u64::MAX {
        r == count * each
    } else {
        r == u64::MAX
    }
}

/// A line of `meminfo` is a key, a colon, a number and perhaps a unit of
/// 1024 bytes or of 1024 times that.
pub proof fn law_meminfo_line(line: Seq<char>, key: Seq<char>, rest: Seq<char>, words: Seq<Seq<char>>, n: nat)
    requires
        scan::split_once_of(line, ':') == Some((key, rest)),
        scan::fields_of(rest, CharClass::Space) == words,
        words.len() > 0,
        number::bounded_of(words[0], 10, u64::MAX as nat) == Some(n),
    ensures
        match host::meminfo_entry(line) {
            Some((k, v)) => {
                &&& k == scan::trim_space(key)
                &&& words.len() == 1 ==> v == n
                &&& words.len() > 1 && (words[1] == "kB"@ || words[1] == "KB"@) ==> in_bytes(n, 1024, v)
                &&& words.len() > 1 && words[1] == "MB"@ ==> in_bytes(n, 1_048_576, v)
                &&& words.len() > 1 && words[1] != "kB"@ && words[1] != "KB"@ && words[1] != "MB"@ ==> v == n
            },
            None => false,
        },
{
    reveal_strlit("kB");
    reveal_strlit("KB");
    reveal_strlit("MB");
    assert("kB"@[0] == 'k' && "KB"@[0] == 'K' && "MB"@[0] == 'M');
    assert("kB"@.len() == 2 && "KB"@.len() == 2 && "MB"@.len() == 2);
    assert(Seq::<char>::empty().len() == 0);
}

/// A line without a number tells nothing; another adds its entry to those of
/// the lines before it, or takes the place of the one with its key.
pub proof fn law_meminfo_lines(lines: Seq<Seq<char>>, line: Seq<char>, key: Seq<char>)
    ensures
        host::meminfo_of(Seq::empty()) == Map::<Seq<char>, u64>::empty(),
        host::meminfo_entry(line) is None ==> host::meminfo_of(lines.push(line)) == host::meminfo_of(lines),
        host::meminfo_entry(line) matches Some(e) ==> {
            let all = host::meminfo_of(lines.push(line));
            &&& all.contains_key(e.0)
            &&& all[e.0] == e.1
            &&& key != e.0 ==> all.contains_key(key) == host::meminfo_of(lines).contains_key(key)
            &&& key != e.0 && all.contains_key(key) ==> all[key] == host::meminfo_of(lines)[key]
        },
{
    assert(lines.push(line).drop_last() =~= lines);
}

/// What `meminfo` tells under a key.
pub open spec fn told_of(m: Map<Seq<char>, u64>, key: Seq<char>) -> Option<nat> {
    if m.contains_key(key) {
        Some(m[key] as nat)
    } else {
        None
    }
}

proof fn lemma_memory_names()
    ensures
        "host.memory.total_bytes"@ != "host.memory.available_bytes"@,
        "host.memory.total_bytes"@ != "host.memory.swap.total_bytes"@,
        "host.memory.total_bytes"@ != "host.memory.swap.used_bytes"@,
        "host.memory.available_bytes"@ != "host.memory.swap.total_bytes"@,
        "host.memory.available_bytes"@ != "host.memory.swap.used_bytes"@,
        "host.memory.swap.total_bytes"@ != "host.memory.swap.used_bytes"@,
{
    reveal_strlit("host.memory.total_bytes");
    reveal_strlit("host.memory.available_bytes");
    reveal_strlit("host.memory.swap.total_bytes");
    reveal_strlit("host.memory.swap.used_bytes");
    assert("host.memory.total_bytes"@[12] == 't' && "host.memory.available_bytes"@[12] == 'a');
    assert("host.memory.swap.total_bytes"@[12] == 's' && "host.memory.swap.used_bytes"@[12] == 's');
    assert("host.memory.swap.total_bytes"@[17] == 't' && "host.memory.swap.used_bytes"@[17] == 'u');
}

proof fn lemma_memory_reading(m: Map<Seq<char>, u64>, name: Seq<char>)
    ensures
        ({
            let swap = m.contains_key("SwapTotal"@) && m.contains_key("SwapFree"@);
            let total = if swap {
                Some(m["SwapTotal"@] as nat)
            } else {
                None
            };
            let used = if swap {
                Some(
                    if m["SwapTotal"@] >= m["SwapFree"@] {
                        (m["SwapTotal"@] - m["SwapFree"@]) as nat
                    } else {
                        0
                    },
                )
            } else {
                None
            };
            let part = |of: Seq<char>, value: Option<nat>|
                if of == name {
                    reading(value, 1, "By"@)
                } else {
                    Seq::empty()
                };
            readings(host::memory_measurements(m), name) == part(
                "host.memory.total_bytes"@,
                told_of(m, "MemTotal"@),
            ) + part("host.memory.available_bytes"@, told_of(m, "MemAvailable"@)) + part(
                "host.memory.swap.total_bytes"@,
                total,
            ) + part("host.memory.swap.used_bytes"@, used)
        }),
{
    let swap = m.contains_key("SwapTotal"@) && m.contains_key("SwapFree"@);
    let total = if swap {
        Some(m["SwapTotal"@] as nat)
    } else {
        None
    };
    let used = if swap {
        Some(
            if m["SwapTotal"@] >= m["SwapFree"@] {
                (m["SwapTotal"@] - m["SwapFree"@]) as nat
            } else {
                0
            },
        )
    } else {
        None
    };
    let a = common::gauge(
        "host.memory.total_bytes"@,
        "By"@,
        "MemTotal from /proc/meminfo — usable RAM as the kernel sees it."@,
        host::entry(m, "MemTotal"@),
        1,
    );
    let b = common::gauge(
        "host.memory.available_bytes"@,
        "By"@,
        "MemAvailable from /proc/meminfo — what userspace can actually allocate."@,
        host::entry(m, "MemAvailable"@),
        1,
    );
    let c = common::gauge("host.memory.swap.total_bytes"@, "By"@, "SwapTotal from /proc/meminfo."@, total, 1);
    let d = common::gauge("host.memory.swap.used_bytes"@, "By"@, "SwapTotal - SwapFree."@, used, 1);
    assert(host::memory_measurements(m) == a + b + c + d);
    lemma_readings_join(a + b + c, d, name);
    lemma_readings_join(a + b, c, name);
    lemma_readings_join(a, b, name);
    lemma_gauge(
        "host.memory.total_bytes"@,
        "By"@,
        "MemTotal from /proc/meminfo — usable RAM as the kernel sees it."@,
        host::entry(m, "MemTotal"@),
        1,
        name,
    );
    lemma_gauge(
        "host.memory.available_bytes"@,
        "By"@,
        "MemAvailable from /proc/meminfo — what userspace can actually allocate."@,
        host::entry(m, "MemAvailable"@),
        1,
        name,
    );
    lemma_gauge(
        "host.memory.swap.total_bytes"@,
        "By"@,
        "SwapTotal from /proc/meminfo."@,
        total,
        1,
        name,
    );
    lemma_gauge("host.memory.swap.used_bytes"@, "By"@, "SwapTotal - SwapFree."@, used, 1, name);
}

/// The memory of the host is reported as `meminfo` tells it; of swap the
/// whole, and what of the whole is not free, where both are told.
pub proof fn law_host_memory(m: Map<Seq<char>, u64>)
    ensures
        ({
            let s = host::memory_measurements(m);
            let swap = m.contains_key("SwapTotal"@) && m.contains_key("SwapFree"@);
            let total = m["SwapTotal"@];
            let free = m["SwapFree"@];
            &&& readings(s, "host.memory.total_bytes"@) == reading(told_of(m, "MemTotal"@), 1, "By"@)
            &&& readings(s, "host.memory.available_bytes"@) == reading(told_of(m, "MemAvailable"@), 1, "By"@)
            &&& swap ==> readings(s, "host.memory.swap.total_bytes"@) == reading(Some(total as nat), 1, "By"@)
            &&& swap && free <= total ==> readings(s, "host.memory.swap.used_bytes"@) == reading(
                Some((total - free) as nat),
                1,
                "By"@,
            )
            &&& swap && free > total ==> readings(s, "host.memory.swap.used_bytes"@) == reading(Some(0), 1, "By"@)
            &&& !swap ==> readings(s, "host.memory.swap.total_bytes"@).len() == 0 && readings(
                s,
                "host.memory.swap.used_bytes"@,
            ).len() == 0
        }),
{
    lemma_memory_names();
    lemma_memory_reading(m, "host.memory.total_bytes"@);
    lemma_memory_reading(m, "host.memory.available_bytes"@);
    lemma_memory_reading(m, "host.memory.swap.total_bytes"@);
    lemma_memory_reading(m, "host.memory.swap.used_bytes"@);
    let s = host::memory_measurements(m);
    let e = Seq::<(Ratio, Seq<char>)>::empty();
    let a = reading(told_of(m, "MemTotal"@), 1, "By"@);
    let b = reading(told_of(m, "MemAvailable"@), 1, "By"@);
    assert(a + e + e + e =~= a);
    assert(e + b + e + e =~= b);
    let c = readings(s, "host.memory.swap.total_bytes"@);
    let d = readings(s, "host.memory.swap.used_bytes"@);
    if m.contains_key("SwapTotal"@) && m.contains_key("SwapFree"@) {
        let total = reading(Some(m["SwapTotal"@] as nat), 1, "By"@);
        assert(e + e + total + e =~= total);
        let rest = reading(
            Some(
                if m["SwapTotal"@] >= m["SwapFree"@] {
                    (m["SwapTotal"@] - m["SwapFree"@]) as nat
                } else {
                    0
                },
            ),
            1,
            "By"@,
        );
        assert(e + e + e + rest =~= rest);
    } else {
        assert(e + e + e + e =~= e);
    }
}

proof fn lemma_dash(parts: Seq<Seq<char>>, i: int)
    requires
        0 <= i < parts.len(),
        parts[i] == "-"@,
        forall|k: int| 0 <= k < i ==> #[trigger] parts[k] != "-"@,
    ensures
        host::dash_index(parts) == i,
    decreases i,
{
    if i > 0 {
        let rest = parts.drop_first();
        assert(parts[0] != "-"@);
        assert(rest[i - 1] == parts[i]);
        assert forall|k: int| 0 <= k < i - 1 implies #[trigger] rest[k] != "-"@ by {
            assert(rest[k] == parts[k + 1]);
        }
        lemma_dash(rest, i - 1);
    }
}

/// In a line of `mountinfo` the type of the file system is the word after
/// the first dash, and the place where it is mounted is the fifth word. It
/// counts if the type is one that a disk has.
pub proof fn law_mount_line(line: Seq<char>, words: Seq<Seq<char>>, dash: int)
    requires
        scan::fields_of(line, CharClass::Space) == words,
        4 < dash,
        dash + 1 < words.len(),
        words[dash] == "-"@,
        forall|k: int| 0 <= k < dash ==> #[trigger] words[k] != "-"@,
    ensures
        ({
            let kind = words[dash + 1];
            let counts = kind == "ext4"@ || kind == "xfs"@ || kind == "btrfs"@ || kind == "zfs"@ || kind == "f2fs"@
                || kind == "ext3"@ || kind == "ext2"@;
            &&& counts ==> host::real_mount(line) == Some(words[4])
            &&& !counts ==> host::real_mount(line) is None
        }),
{
    lemma_dash(words, dash);
}

/// The places are those of the lines that count, each once.
pub proof fn law_mounts(lines: Seq<Seq<char>>, place: Seq<char>)
    ensures
        host::mounts_of(lines).contains(place) <==> exists|i: int|
            0 <= i < lines.len() && host::real_mount(#[trigger] lines[i]) == Some(place),
        host::mounts_of(lines).no_duplicates(),
    decreases lines.len(),
{
    let all = host::mounts_of(lines);
    if lines.len() > 0 {
        let front = lines.drop_last();
        let head = host::mounts_of(front);
        law_mounts(front, place);
        assert(lines[lines.len() - 1] == lines.last());
        if head.contains(place) {
            let i = choose|i: int| 0 <= i < front.len() && host::real_mount(#[trigger] front[i]) == Some(place);
            assert(lines[i] == front[i]);
            let k = choose|k: int| 0 <= k < head.len() && head[k] == place;
            assert(all[k] == place);
        }
        if host::real_mount(lines.last()) == Some(place) && !head.contains(place) {
            assert(all[head.len() as int] == place);
        }
        if all.contains(place) && !head.contains(place) {
            let k = choose|k: int| 0 <= k < all.len() && all[k] == place;
            if k < head.len() {
                assert(head[k] == place);
            }
        }
        if exists|i: int| 0 <= i < lines.len() && host::real_mount(#[trigger] lines[i]) == Some(place) {
            let i = choose|i: int| 0 <= i < lines.len() && host::real_mount(#[trigger] lines[i]) == Some(place);
            if i < front.len() {
                assert(front[i] == lines[i]);
            }
        }
        assert forall|i: int, j: int| 0 <= i < all.len() && 0 <= j < all.len() && i != j implies all[i] != all[j] by {
            if i < head.len() {
                assert(head.contains(head[i]));
            }
            if j < head.len() {
                assert(head.contains(head[j]));
            }
        }
    }
}

/// A disk is reported with its size and with what is free of it for anyone,
/// in bytes, under the place where it is mounted; one that could not be
/// looked up is not.
pub proof fn law_disks(mounts: Seq<(String, Option<DiskBlocks>)>, place: String, d: Option<DiskBlocks>)
    ensures
        host::disk_measurements(Seq::empty()).len() == 0,
        d is None ==> host::disk_measurements(mounts.push((place, d))) == host::disk_measurements(mounts),
        d is Some ==> {
            let before = host::disk_measurements(mounts);
            let after = host::disk_measurements(mounts.push((place, d)));
            let n = before.len() as int;
            &&& after.len() == n + 2
            &&& forall|i: int| 0 <= i < n ==> #[trigger] after[i] == before[i]
            &&& after[n].name == "host.disk.total_bytes"@
            &&& after[n].description == "Total bytes on a real (non-virtual) filesystem."@
            &&& after[n + 1].description == "Free bytes available to non-root on a real filesystem."@
            &&& after[n].unit == "By"@
            &&& after[n].value.divisor == 1
            &&& in_bytes(d->0.blocks as nat, d->0.block_size as nat, after[n].value.raw)
            &&& after[n].attrs == seq![("mount"@, place@)]
            &&& after[n + 1].name == "host.disk.free_bytes"@
            &&& after[n + 1].unit == "By"@
            &&& after[n + 1].value.divisor == 1
            &&& in_bytes(d->0.available as nat, d->0.block_size as nat, after[n + 1].value.raw)
            &&& after[n + 1].attrs == seq![("mount"@, place@)]
        },
{
    assert(mounts.push((place, d)).drop_last() =~= mounts);
    let before = host::disk_measurements(mounts);
    assert(before + Seq::<MeasurementModel>::empty() =~= before);
    match d {
        Some(b) => {
            let (x, y, z) = (b.blocks as int, b.available as int, b.block_size as int);
            assert(x * z >= 0 && y * z >= 0) by (nonlinear_arith)
                requires
                    x >= 0,
                    y >= 0,
                    z >= 0,
            ;
        },
        None => {},
    }
}

// ---------------------------------------------------------------------
// Models
// ---------------------------------------------------------------------

/// The model of an identity says of each thing what the identity says of it.
pub proof fn law_model_of_an_identity(id: sensors::AcceleratorId)
    ensures
        id@.vendor == id.vendor,
        id@.drm_index == id.drm_index,
        id@.pci_addr == id.pci_addr@,
{
}

/// The model of a measurement says of each thing what the measurement says
/// of it.
pub proof fn law_model_of_a_measurement(m: sensors::Measurement)
    ensures
        m@.name == m.name@,
        m@.unit == m.unit@,
        m@.description == m.description@,
        m@.value == m.value,
        m@.attrs.len() == m.attrs@.len(),
        forall|i: int|
            0 <= i < m.attrs@.len() ==> #[trigger] m@.attrs[i] == (m.attrs@[i].0@, m.attrs@[i].1@),
{
}


// ---------------------------------------------------------------------
// Cards
// ---------------------------------------------------------------------

/// The entry is the card with the minor, and its device is in the directory.
pub open spec fn is_card_entry(e: (String, Option<String>), minor: nat, dir: Seq<char>) -> bool {
    &&& scan::has_prefix(e.0@, "card"@)
    &&& number::bounded_of(e.0@.skip("card"@.len() as int), 10, u32::MAX as nat) == Some(minor)
    &&& e.1 is Some
    &&& e.1->0@ == dir
}

/// The entry `card` with a number behind it is the card with that number.
pub proof fn law_minor_of_a_card(n: nat)
    requires
        n <= u32::MAX,
    ensures
        common::card_index_of("card"@ + number::decimal(n)) == Some(n),
{
    let s = "card"@ + number::decimal(n);
    assert(s.take("card"@.len() as int) =~= "card"@);
    assert(s.skip("card"@.len() as int) =~= number::decimal(n));
    number::law_decimal_reads_back(n, u32::MAX as nat);
}

proof fn lemma_found_cards(entries: Seq<(String, Option<String>)>, minor: nat, dir: Seq<char>)
    ensures
        common::found_cards(entries).contains((minor, dir)) <==> exists|i: int|
            0 <= i < entries.len() && is_card_entry(#[trigger] entries[i], minor, dir),
    decreases entries.len(),
{
    let all = common::found_cards(entries);
    let x = (minor, dir);
    if entries.len() > 0 {
        let front = entries.drop_last();
        let head = common::found_cards(front);
        let e = entries.last();
        lemma_found_cards(front, minor, dir);
        assert(entries[entries.len() - 1] == e);
        if head.contains(x) {
            let k = choose|k: int| 0 <= k < head.len() && head[k] == x;
            assert(all[k] == x);
            let i = choose|i: int| 0 <= i < front.len() && is_card_entry(#[trigger] front[i], minor, dir);
            assert(entries[i] == front[i]);
        }
        if is_card_entry(e, minor, dir) {
            assert(all[head.len() as int] == x);
        }
        if all.contains(x) && !head.contains(x) {
            let k = choose|k: int| 0 <= k < all.len() && all[k] == x;
            if k < head.len() {
                assert(head[k] == x);
            }
        }
        if exists|i: int| 0 <= i < entries.len() && is_card_entry(#[trigger] entries[i], minor, dir) {
            let i = choose|i: int| 0 <= i < entries.len() && is_card_entry(#[trigger] entries[i], minor, dir);
            if i < front.len() {
                assert(front[i] == entries[i]);
            }
        }
    }
}

/// The cards are the entries that are called `card` with a number behind it
/// and have a device, by rising number.
pub proof fn law_cards_of_a_node(
    entries: Seq<(String, Option<String>)>,
    cards: Seq<(u32, String)>,
    minor: u32,
    dir: String,
    i: int,
    j: int,
)
    requires
        common::card_models(cards) == sorting::arranged(common::found_cards(entries), common::card_before()),
    ensures
        cards.contains((minor, dir)) ==> exists|k: int|
            0 <= k < entries.len() && is_card_entry(#[trigger] entries[k], minor as nat, dir@),
        (exists|k: int| 0 <= k < entries.len() && is_card_entry(#[trigger] entries[k], minor as nat, dir@)) ==> exists|
            k: int,
        |
            0 <= k < cards.len() && (#[trigger] cards[k]).0 == minor && cards[k].1@ == dir@,
        0 <= i < j < cards.len() ==> cards[i].0 <= cards[j].0,
{
    let found = common::found_cards(entries);
    let before = common::card_before();
    let models = common::card_models(cards);
    let x = (minor as nat, dir@);
    lemma_found_cards(entries, minor as nat, dir@);
    sorting::lemma_arranged_contains(found, before, x);
    if cards.contains((minor, dir)) {
        let k = choose|k: int| 0 <= k < cards.len() && cards[k] == (minor, dir);
        assert(models[k] == x);
    }
    if models.contains(x) {
        let k = choose|k: int| 0 <= k < models.len() && models[k] == x;
        assert(cards[k].0 == minor && cards[k].1@ == dir@);
    }
    assert(sorting::is_ranking(before));
    sorting::lemma_arranged_in_order(found, before);
    if 0 <= i < j < cards.len() {
        assert(!before(models[j], models[i]));
        assert(models[i].0 == cards[i].0 && models[j].0 == cards[j].0);
    }
}

/// The virtual functions of a device are those that it supports and those
/// that are configured, none where nothing says so.
pub proof fn law_virtual_functions(fs: Sysfs, dir: Seq<char>)
    ensures
        match common::sriov_of(fs, dir) {
            Some((total, current)) => {
                &&& common::u64_in(fs.file(dir, "sriov_totalvfs"@)) == Some(total)
                &&& current == count_in(fs, dir, "sriov_numvfs"@)
            },
            None => common::u64_in(fs.file(dir, "sriov_totalvfs"@)) is None,
        },
{
}


// ---------------------------------------------------------------------
// Files and names
// ---------------------------------------------------------------------

/// What the labels and the attributes call vendors, kinds of memory and
/// coverage.
pub proof fn law_names(v: Vendor, k: MemoryKind, c: Coverage)
    ensures
        v == Vendor::Amd ==> v.name() == "amd"@,
        v == Vendor::Nvidia ==> v.name() == "nvidia"@,
        v == Vendor::Intel ==> v.name() == "intel"@,
        v == Vendor::Other ==> v.name() == "other"@,
        k == MemoryKind::Dedicated ==> k.name() == "dedicated"@,
        k == MemoryKind::Unified ==> k.name() == "unified"@,
        k == MemoryKind::Shared ==> k.name() == "shared"@,
        k == MemoryKind::Unknown ==> k.name() == "unknown"@,
        c == Coverage::Full ==> c.name() == "full"@,
        c == Coverage::IdentificationOnly ==> c.name() == "identification-only"@,
        c == Coverage::Failed ==> c.name() == "failed"@,
{
}

/// A card is shown by its minor, its address and its vendor.
pub proof fn law_card_is_shown(id: sensors::AcceleratorId)
    ensures
        sensors::AcceleratorId::shown(id@) == "card"@ + number::decimal(id.drm_index as nat) + " ["@
            + id.pci_addr@ + "] "@ + id.vendor.name(),
{
}

/// A number in a file is read whatever white space is around it.
pub proof fn law_number_in_a_file(a: Seq<char>, n: nat, b: Seq<char>)
    requires
        n <= u64::MAX,
        laws::all_of(a, CharClass::Space),
        laws::all_of(b, CharClass::Space),
    ensures
        common::u64_in(Some(a + number::decimal(n) + b)) == Some(n),
        n <= i32::MAX ==> common::i32_in(Some(a + number::decimal(n) + b)) == Some(n as int),
        common::u64_in(None) is None,
{
    let d = number::decimal(n);
    laws::lemma_numeral_is_digits(n);
    assert('0' <= d[0] <= '9' && '0' <= d[d.len() - 1] <= '9');
    laws::law_trimming(a, d, b, CharClass::Space);
    number::law_decimal_reads_back(n, u64::MAX as nat);
    laws::law_signed_numeral_reads_back(n as int);
}

/// A number in hexadecimal is read with `0x` in front of it and without.
pub proof fn law_hexadecimal_in_a_file(d: Seq<char>)
    requires
        d.len() > 0,
        number::all_digits(d, 16),
        number::value_of(d, 16) <= u16::MAX,
        d.len() > 1 ==> d[1] != 'x',
    ensures
        common::hex_u16_in(Some(d)) == Some(number::value_of(d, 16)),
        common::hex_u16_in(Some("0x"@ + d)) == Some(number::value_of(d, 16)),
{
    reveal_strlit("0x");
    let s = "0x"@ + d;
    let none = Seq::<char>::empty();
    assert forall|i: int| 0 <= i < d.len() implies !CharClass::Space.has(#[trigger] d[i]) by {
        assert(number::digit_of(d[i], 16) is Some);
    }
    assert(none + d + none =~= d);
    assert(none + s + none =~= s);
    assert(!CharClass::Space.has(d[0]) && !CharClass::Space.has(d[d.len() - 1]));
    assert(s[0] == '0' && s[s.len() - 1] == d[d.len() - 1]);
    laws::law_trimming(none, d, none, CharClass::Space);
    laws::law_trimming(none, s, none, CharClass::Space);
    assert(!scan::has_prefix(d, "0x"@)) by {
        if d.len() >= 2 {
            assert(d.take(2)[1] == d[1]);
        }
    }
    assert(scan::has_prefix(s, "0x"@)) by {
        assert(s.take(2) =~= "0x"@);
    }
    assert(s.skip(2) =~= d);
    reveal_with_fuel(scan::drop_leading_text, 2);
    assert(number::digit_of(d[0], 16) is Some);
    assert(d[0] != '+');
}

/// The regions of a device are those that the lines of its file `resource`
/// describe, in their order.
pub proof fn law_regions_of_a_device(fs: Sysfs, dir: Seq<char>, s: Seq<char>, i: int)
    requires
        fs.file(dir, "resource"@) == Some(s),
        0 <= i < scan::lines_of(s).len(),
    ensures
        common::pci_bars_of(fs, dir).len() == scan::lines_of(s).len(),
        common::pci_bars_of(fs, dir)[i] == common::bar_size(scan::lines_of(s)[i]),
        common::pci_bar(fs, dir, i) == common::bar_size(scan::lines_of(s)[i]),
{
}

proof fn lemma_int_range(a: int, b: int)
    requires
        a <= b + 1,
    ensures
        common::int_range(a, b).len() == b - a + 1,
        forall|i: int| 0 <= i <= b - a ==> #[trigger] common::int_range(a, b)[i] == a + i,
    decreases b - a + 1,
{
    if a <= b {
        lemma_int_range(a, b - 1);
    }
}

/// A list of CPUs that is a number names that CPU, and one that is two
/// numbers with a dash between names those from the one to the other.
pub proof fn law_cpus_in_a_list(a: nat, b: nat)
    requires
        a <= b <= usize::MAX,
    ensures
        common::cpulist(number::decimal(a)) == seq![a as int],
        ({
            let cpus = common::cpulist(number::decimal(a) + seq!['-'] + number::decimal(b));
            &&& cpus.len() == b - a + 1
            &&& forall|i: int| 0 <= i <= b - a ==> #[trigger] cpus[i] == a + i
        }),
{
    let x = number::decimal(a);
    let y = number::decimal(b);
    let s = x + seq!['-'] + y;
    let none = Seq::<char>::empty();
    laws::lemma_numeral_is_digits(a);
    laws::lemma_numeral_is_digits(b);
    number::law_decimal_reads_back(a, usize::MAX as nat);
    number::law_decimal_reads_back(b, usize::MAX as nat);
    assert('0' <= x[0] <= '9' && '0' <= x[x.len() - 1] <= '9' && '0' <= y[y.len() - 1] <= '9');
    assert(laws::free_of(x, CharClass::One('-')));
    laws::law_split_once(x, '-', y);
    assert(none + x + none =~= x && none + s + none =~= s);
    laws::law_trimming(none, x, none, CharClass::Space);
    assert(s[0] == x[0] && s.last() == y[y.len() - 1]);
    laws::law_trimming(none, s, none, CharClass::Space);
    let k = CharClass::One(',');
    assert forall|i: int| 0 <= i < s.len() implies !k.has(#[trigger] s[i]) by {
        if i < x.len() {
            assert(s[i] == x[i]);
        } else if i > x.len() {
            assert(s[i] == y[i - x.len() - 1]);
        }
    }
    scan::lemma_find_at(s, k, s.len() as int);
    scan::lemma_find_at(x, k, x.len() as int);
    lemma_one_piece(x);
    lemma_one_piece(s);
    lemma_int_range(a as int, b as int);
}

proof fn lemma_one_piece(s: Seq<char>)
    requires
        scan::find(s, CharClass::One(',')) == s.len(),
    ensures
        common::cpulist(s) == common::piece_cpus(scan::trim_space(s)),
{
    let pieces = scan::split_of(s, ',');
    assert(pieces == seq![s]);
    assert(pieces.drop_last() =~= Seq::empty());
    assert(common::pieces_cpus(pieces.drop_last()) =~= Seq::<int>::empty());
    assert(common::cpulist(s) =~= common::piece_cpus(scan::trim_space(s)));
}

/// The first line of a file is what comes before its first line feed, without
/// white space around it.
pub proof fn law_first_line_of_a_file(a: Seq<char>, rest: Seq<char>)
    requires
        laws::free_of(a, CharClass::One('\n')),
        a.len() > 0,
        a.last() != '\r',
    ensures
        common::first_line_in(Some(a)) == Some(scan::trim_space(a)),
        common::first_line_in(Some(a + seq!['\n'] + rest)) == Some(scan::trim_space(a)),
        common::first_line_in(Some(Seq::empty())) is None,
        common::first_line_in(None) is None,
{
    laws::law_lines(a, rest);
}

/// The temperature of a hwmon directory is told with the sensor's label, or
/// with `temp1` where it has none.
pub proof fn law_temperature_names_its_sensor(hw: HwmonEntry, t: nat)
    requires
        common::u64_in(common::content(hw.files, "temp1_input"@)) == Some(t),
    ensures
        ({
            let m = amd::hwmon_measurements(hw);
            let label = common::first_line_in(common::content(hw.files, "temp1"@ + "_label"@));
            &&& m.len() > 0
            &&& m[0].name == "accel.temperature"@
            &&& m[0].description == "Edge or junction temperature from hwmon temp1."@
            &&& label matches Some(s) ==> m[0].attrs == seq![("sensor"@, s)]
            &&& label is None ==> m[0].attrs == seq![("sensor"@, "temp1"@)]
        }),
{
}

/// A field of a card's information is what stands behind the colon of the
/// first line with its name.
pub proof fn law_field_of_information(
    lines: Seq<Seq<char>>,
    line: Seq<char>,
    key: Seq<char>,
    k: Seq<char>,
    v: Seq<char>,
)
    requires
        scan::split_once_of(line, ':') == Some((k, v)),
    ensures
        nvidia::info_field(Seq::empty(), key) is None,
        scan::trim_space(k) == key ==> nvidia::info_field(seq![line] + lines, key) == Some(scan::trim_space(v)),
        scan::trim_space(k) != key ==> nvidia::info_field(seq![line] + lines, key) == nvidia::info_field(lines, key),
{
    assert((seq![line] + lines).drop_first() =~= lines);
}


/// The name that a card without a better one goes by: its vendor's, and the
/// identifier in its file `device` in four hexadecimal digits or more.
pub open spec fn made_up_name(fs: Sysfs, dir: Seq<char>, vendor: Seq<char>) -> Seq<char> {
    let id = match common::hex_u16_in(fs.file(dir, "device"@)) {
        Some(n) => n,
        None => 0,
    };
    vendor + " device 0x"@ + number::zero_padded(number::hex(id), 4)
}

/// Cards that nothing names go by a name that is made up for them: AMD's
/// without a product name, Nvidia's that the driver does not list, and all of
/// Intel's.
pub proof fn law_made_up_names(
    fs: Sysfs,
    n: u32,
    dir: String,
    names: Map<Seq<char>, Seq<char>>,
    amd_card: Accelerator,
    nvidia_card: Accelerator,
    intel_card: Accelerator,
)
    requires
        amd::describes(fs, n, dir, amd_card),
        nvidia::describes(fs, n, dir, names, nvidia_card),
        intel::describes(fs, n, dir, intel_card),
    ensures
        common::first_line_in(fs.file(dir@, "product_name"@)) is None ==> amd_card.model@ == made_up_name(
            fs,
            dir@,
            "AMD"@,
        ),
        !names.contains_key(scan::lower_text(nvidia_card.id.pci_addr@)) ==> nvidia_card.model@ == made_up_name(
            fs,
            dir@,
            "Nvidia"@,
        ),
        intel_card.model@ == made_up_name(fs, dir@, "Intel"@),
{
}

/// The IOMMU group of an AMD card is the number that its link ends in; that
/// of the others is not looked up. No card starts out as a partition.
pub proof fn law_groups_of_cards(
    fs: Sysfs,
    n: u32,
    dir: String,
    names: Map<Seq<char>, Seq<char>>,
    amd_card: Accelerator,
    nvidia_card: Accelerator,
    intel_card: Accelerator,
)
    requires
        amd::describes(fs, n, dir, amd_card),
        nvidia::describes(fs, n, dir, names, nvidia_card),
        intel::describes(fs, n, dir, intel_card),
    ensures
        ({
            let link = if fs.devices@.contains_key(dir@) {
                text::opt_text(fs.devices@[dir@].iommu_group)
            } else {
                None
            };
            let group = match link {
                Some(s) => number::bounded_of(s, 10, u32::MAX as nat),
                None => None,
            };
            &&& group is Some <==> amd_card.iommu_group is Some
            &&& group matches Some(g) ==> amd_card.iommu_group->0 == g
            &&& nvidia_card.iommu_group is None
            &&& intel_card.iommu_group is None
            &&& !amd_card.partitioned && !nvidia_card.partitioned && !intel_card.partitioned
        }),
{
}


} // verus!
