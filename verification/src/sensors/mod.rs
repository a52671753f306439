//! Vendor-neutral accelerator sensors. Backends read sysfs and proc only.
//! One that cannot fill a snapshot returns what it can and says so in its
//! coverage; it does not make up zeros.

pub mod amd;
pub mod common;
pub mod host;
pub mod intel;
pub mod laws;
pub mod nvidia;

use crate::number;
use crate::text;
use common::Sysfs;
use vstd::prelude::*;

verus! {

/// Who made an accelerator.
#[derive(Debug, Clone, Copy, PartialEq, Eq, PartialOrd, Ord, Hash, Structural)]
pub enum Vendor {
    Amd,
    Nvidia,
    Intel,
    Other,
}

impl Vendor {
    /// The vendor with a PCI vendor identifier.
    pub open spec fn of_pci_id(id: nat) -> Vendor {
        if id == 0x1002 {
            Vendor::Amd
        } else if id == 0x10de {
            Vendor::Nvidia
        } else if id == 0x8086 {
            Vendor::Intel
        } else {
            Vendor::Other
        }
    }

    /// The vendor's name in labels and attributes.
    pub open spec fn name(self) -> Seq<char> {
        match self {
            Vendor::Amd => "amd"@,
            Vendor::Nvidia => "nvidia"@,
            Vendor::Intel => "intel"@,
            Vendor::Other => "other"@,
        }
    }

    /// The vendor with the PCI vendor identifier `vendor_hex`.
    pub fn from_pci_id(vendor_hex: u16) -> (r: Self)
        ensures
            r == Vendor::of_pci_id(vendor_hex as nat),
    {
        match vendor_hex {
            0x1002 => Vendor::Amd,
            0x10de => Vendor::Nvidia,
            0x8086 => Vendor::Intel,
            _ => Vendor::Other,
        }
    }

    /// The vendor's name in labels and attributes.
    pub fn slug(self) -> (r: &'static str)
        ensures
            r@ == self.name(),
    {
        match self {
            Vendor::Amd => "amd",
            Vendor::Nvidia => "nvidia",
            Vendor::Intel => "intel",
            Vendor::Other => "other",
        }
    }
}

/// Where an accelerator's memory is.
#[derive(Debug, Clone, Copy, PartialEq, Eq, Structural)]
pub enum MemoryKind {
    /// Memory of its own, as on a discrete card.
    Dedicated,
    /// Host memory, used through an aperture, as on integrated graphics.
    Unified,
    /// Memory of its own that is carved up between tenants.
    Shared,
    /// Too little is known to tell.
    Unknown,
}

impl MemoryKind {
    /// The kind's name in labels and attributes.
    pub open spec fn name(self) -> Seq<char> {
        match self {
            MemoryKind::Dedicated => "dedicated"@,
            MemoryKind::Unified => "unified"@,
            MemoryKind::Shared => "shared"@,
            MemoryKind::Unknown => "unknown"@,
        }
    }

    /// The kind's name in labels and attributes.
    pub fn slug(self) -> (r: &'static str)
        ensures
            r@ == self.name(),
    {
        match self {
            MemoryKind::Dedicated => "dedicated",
            MemoryKind::Unified => "unified",
            MemoryKind::Shared => "shared",
            MemoryKind::Unknown => "unknown",
        }
    }
}

/// How much a sensor can say in a snapshot.
#[derive(Debug, Clone, Copy, PartialEq, Eq, Structural)]
pub enum Coverage {
    /// Memory totals, utilization and temperature.
    Full,
    /// Memory totals, but nothing that changes as the accelerator runs.
    IdentificationOnly,
    /// The sensor is broken: its reads fail.
    Failed,
}

impl Coverage {
    /// The coverage's name in attributes.
    pub open spec fn name(self) -> Seq<char> {
        match self {
            Coverage::Full => "full"@,
            Coverage::IdentificationOnly => "identification-only"@,
            Coverage::Failed => "failed"@,
        }
    }

    /// The coverage's name in attributes.
    pub fn slug(self) -> (r: &'static str)
        ensures
            r@ == self.name(),
    {
        match self {
            Coverage::Full => "full",
            Coverage::IdentificationOnly => "identification-only",
            Coverage::Failed => "failed",
        }
    }
}

/// The identity of an accelerator within its node.
#[derive(Debug, PartialEq, Eq, PartialOrd, Ord, Hash)]
pub struct AcceleratorId {
    pub vendor: Vendor,
    /// The DRM minor: `card0`, `card1`, and so on.
    pub drm_index: u32,
    /// PCI domain, bus, device and function, as in `0000:01:00.0`.
    pub pci_addr: String,
}

/// The model of an identity.
#[verifier::ext_equal]
pub struct IdModel {
    pub vendor: Vendor,
    pub drm_index: u32,
    pub pci_addr: Seq<char>,
}

impl View for AcceleratorId {
    type V = IdModel;

    open spec fn view(&self) -> IdModel {
        IdModel { vendor: self.vendor, drm_index: self.drm_index, pci_addr: self.pci_addr@ }
    }
}

impl Clone for AcceleratorId {
    fn clone(&self) -> (r: Self)
        ensures
            r == *self,
    {
        AcceleratorId { vendor: self.vendor, drm_index: self.drm_index, pci_addr: self.pci_addr.clone() }
    }
}

impl AcceleratorId {
    /// The identity as shown to people.
    pub open spec fn shown(id: IdModel) -> Seq<char> {
        "card"@ + number::decimal(id.drm_index as nat) + " ["@ + id.pci_addr + "] "@ + id.vendor.name()
    }

    /// The identity as shown to people.
    pub fn render(&self) -> (r: String)
        ensures
            r@ == AcceleratorId::shown(self@),
    {
        let mut out = text::join3("card", number::dec(self.drm_index as u64).as_str(), " [");
        out.append(self.pci_addr.as_str());
        out.append("] ");
        out.append(self.vendor.slug());
        out
    }

    /// Equality of two identities.
    pub fn same(&self, other: &AcceleratorId) -> (r: bool)
        ensures
            r == (self@ == other@),
    {
        self.vendor == other.vendor && self.drm_index == other.drm_index && text::same(
            self.pci_addr.as_str(),
            other.pci_addr.as_str(),
        )
    }
}

/// What enumeration finds out about an accelerator and does not change from
/// tick to tick.
#[derive(Debug)]
pub struct Accelerator {
    pub id: AcceleratorId,
    pub model: String,
    pub memory_kind: MemoryKind,
    pub memory_total_bytes: Option<u64>,
    pub numa_node: Option<i32>,
    pub local_cpus: Vec<usize>,
    pub iommu_group: Option<u32>,
    pub coverage: Coverage,
    /// Filled in by the topology pass after enumeration.
    pub fabric_domain: Option<String>,
    /// Cards that share a parent PCI function are partitions of one physical
    /// accelerator.
    pub partitioned: bool,
    /// The device's directory in sysfs.
    pub device_dir: String,
}

impl Clone for Accelerator {
    fn clone(&self) -> (r: Self)
        ensures
            r == (Accelerator { local_cpus: r.local_cpus, ..*self }),
            r.local_cpus@ == self.local_cpus@,
    {
        let mut local_cpus: Vec<usize> = Vec::new();
        let mut i: usize = 0;
        while i < self.local_cpus.len()
            invariant
                i <= self.local_cpus@.len(),
                local_cpus@ == self.local_cpus@.take(i as int),
            decreases self.local_cpus@.len() - i,
        {
            local_cpus.push(self.local_cpus[i]);
            i = i + 1;
            assert(local_cpus@ =~= self.local_cpus@.take(i as int));
        }
        assert(local_cpus@ =~= self.local_cpus@);
        Accelerator {
            id: self.id.clone(),
            model: self.model.clone(),
            memory_kind: self.memory_kind,
            memory_total_bytes: self.memory_total_bytes,
            numa_node: self.numa_node,
            local_cpus,
            iommu_group: self.iommu_group,
            coverage: self.coverage,
            fabric_domain: text::clone_opt(&self.fabric_domain),
            partitioned: self.partitioned,
            device_dir: self.device_dir.clone(),
        }
    }
}

/// A measured value: `raw` parts of which `divisor` make one unit.
#[derive(Debug, Clone, Copy, PartialEq, Eq, Structural)]
pub struct Ratio {
    pub raw: u64,
    pub divisor: u64,
}

/// One value of a snapshot.
#[derive(Debug)]
pub struct Measurement {
    pub name: &'static str,
    pub unit: &'static str,
    pub description: &'static str,
    pub value: Ratio,
    /// Attributes beyond those that every metric of an accelerator carries.
    pub attrs: Vec<(&'static str, String)>,
}

/// The model of a measurement.
#[verifier::ext_equal]
pub struct MeasurementModel {
    pub name: Seq<char>,
    pub unit: Seq<char>,
    pub description: Seq<char>,
    pub value: Ratio,
    pub attrs: Seq<(Seq<char>, Seq<char>)>,
}

impl View for Measurement {
    type V = MeasurementModel;

    open spec fn view(&self) -> MeasurementModel {
        MeasurementModel {
            name: self.name@,
            unit: self.unit@,
            description: self.description@,
            value: self.value,
            attrs: self.attrs@.map_values(|a: (&'static str, String)| (a.0@, a.1@)),
        }
    }
}

/// The models of measurements.
pub open spec fn models(v: Seq<Measurement>) -> Seq<MeasurementModel> {
    v.map_values(|m: Measurement| m@)
}

/// A measurement without attributes of its own.
pub open spec fn plain(
    name: Seq<char>,
    unit: Seq<char>,
    description: Seq<char>,
    value: Ratio,
) -> MeasurementModel {
    MeasurementModel { name, unit, description, value, attrs: Seq::empty() }
}

/// What changes as an accelerator runs.
#[derive(Debug)]
pub struct Snapshot {
    pub measurements: Vec<Measurement>,
}

/// The model name of a card that has no better one.
pub open spec fn device_name(vendor: Seq<char>, device_id: nat) -> Seq<char> {
    vendor + " device 0x"@ + number::zero_padded(number::hex(device_id), 4)
}

/// The model name of a card that has no better one.
pub fn unnamed_device(vendor: &str, device_id: u16) -> (r: String)
    ensures
        r@ == device_name(vendor@, device_id as nat),
{
    text::join3(vendor, " device 0x", number::hex_padded(device_id as u64, 4).as_str())
}

/// A backend for the accelerators of one vendor.
pub trait AcceleratorSensor {
    /// Whose accelerators the backend reads.
    fn vendor(&self) -> Vendor;

    /// The vendor's accelerators among the cards.
    fn enumerate(&self, fs: &Sysfs, cards: &Vec<(u32, String)>) -> Vec<Accelerator>;

    /// What an accelerator of the vendor's shows now.
    fn snapshot(&self, fs: &Sysfs, accel: &Accelerator) -> Snapshot;
}

/// What a snapshot of an accelerator holds, where a backend reads its
/// vendor's.
pub open spec fn snapshot_of(fs: Sysfs, a: Accelerator) -> Option<Seq<MeasurementModel>> {
    match a.id.vendor {
        Vendor::Amd => Some(amd::snapshot_of(fs, a.device_dir@)),
        Vendor::Nvidia => Some(nvidia::snapshot_of(fs, a.device_dir@, a.memory_total_bytes)),
        Vendor::Intel => Some(intel::snapshot_of(fs, a.device_dir@, a.memory_total_bytes)),
        Vendor::Other => None,
    }
}

/// What `accel` shows now, where a backend reads its vendor's accelerators.
pub fn snapshot(fs: &Sysfs, accel: &Accelerator) -> (r: Option<Snapshot>)
    ensures
        match r {
            Some(s) => snapshot_of(*fs, *accel) == Some(models(s.measurements@)),
            None => snapshot_of(*fs, *accel) is None,
        },
{
    match accel.id.vendor {
        Vendor::Amd => Some(amd::AmdSysfsSensor.snapshot(fs, accel)),
        Vendor::Nvidia => Some(nvidia::NvidiaSysfsSensor.snapshot(fs, accel)),
        Vendor::Intel => Some(intel::IntelSysfsSensor.snapshot(fs, accel)),
        Vendor::Other => None,
    }
}

/// The accelerators of all backends, before partitions are marked: AMD's,
/// Nvidia's and Intel's, each in the order of their cards.
pub open spec fn enumerated(fs: Sysfs, cards: Seq<(u32, String)>, all: Seq<Accelerator>) -> bool {
    exists|a: Seq<Accelerator>, n: Seq<Accelerator>, i: Seq<Accelerator>|
        all == a + n + i && #[trigger] amd::are_cards(fs, cards, a) && #[trigger] nvidia::are_cards(
            fs,
            cards,
            n,
        ) && #[trigger] intel::are_cards(fs, cards, i)
}

/// The accelerators among the cards, backend by backend, with partitions
/// marked.
pub fn enumerate_all(fs: &Sysfs, cards: &Vec<(u32, String)>) -> (r: Vec<Accelerator>)
    ensures
        exists|all: Seq<Accelerator>| enumerated(*fs, cards@, all) && #[trigger] common::marked(*fs, all, r@),
{
    let mut all = amd::AmdSysfsSensor.enumerate(fs, cards);
    let ghost a = all@;
    let mut more = nvidia::NvidiaSysfsSensor.enumerate(fs, cards);
    let ghost n = more@;
    all.append(&mut more);
    let mut rest = intel::IntelSysfsSensor.enumerate(fs, cards);
    let ghost i = rest@;
    all.append(&mut rest);
    let ghost found = all@;
    proof {
        assert(found =~= a + n + i);
        assert(enumerated(*fs, cards@, found));
    }
    common::mark_partitions(&mut all, fs);
    all
}

} // verus!
