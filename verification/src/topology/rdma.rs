//! RDMA devices and the state of their ports, from `/sys/class/infiniband`.
//! The labeler publishes them, and a node without an active RoCE port is no
//! partner for a probe.

use crate::config;
use crate::number;
use crate::scan;
use crate::scan::CharClass;
use crate::sensors::common;
use crate::sorting;
use crate::text;
use crate::textmap::TextMap;
use vstd::prelude::*;

verus! {

/// The RDMA devices of a node.
#[derive(Debug)]
pub struct RdmaInventory {
    pub devices: Vec<RdmaDevice>,
}

#[derive(Debug)]
pub struct RdmaDevice {
    pub name: String,
    pub ports: Vec<RdmaPort>,
}

#[derive(Debug)]
pub struct RdmaPort {
    pub index: u32,
    pub state: String,
    pub phys_state: String,
    pub link_layer: String,
    pub rate_gbps: Option<u32>,
}

/// The model of a port.
#[verifier::ext_equal]
pub struct PortModel {
    pub index: nat,
    pub state: Seq<char>,
    pub phys_state: Seq<char>,
    pub link_layer: Seq<char>,
    pub rate_gbps: Option<nat>,
}

/// The model of a device.
#[verifier::ext_equal]
pub struct DeviceModel {
    pub name: Seq<char>,
    pub ports: Seq<PortModel>,
}

impl View for RdmaPort {
    type V = PortModel;

    open spec fn view(&self) -> PortModel {
        PortModel {
            index: self.index as nat,
            state: self.state@,
            phys_state: self.phys_state@,
            link_layer: self.link_layer@,
            rate_gbps: match self.rate_gbps {
                Some(n) => Some(n as nat),
                None => None,
            },
        }
    }
}

/// The models of ports.
pub open spec fn port_models(v: Seq<RdmaPort>) -> Seq<PortModel> {
    v.map_values(|p: RdmaPort| p@)
}

impl View for RdmaDevice {
    type V = DeviceModel;

    open spec fn view(&self) -> DeviceModel {
        DeviceModel { name: self.name@, ports: port_models(self.ports@) }
    }
}

/// The models of devices.
pub open spec fn device_models(v: Seq<RdmaDevice>) -> Seq<DeviceModel> {
    v.map_values(|d: RdmaDevice| d@)
}

// ---------------------------------------------------------------------
// Values in files
// ---------------------------------------------------------------------

/// The contents of a file, trimmed, unless nothing is left.
pub open spec fn trimmed_in(c: Option<Seq<char>>) -> Option<Seq<char>> {
    match c {
        Some(s) => if scan::trim_space(s).len() > 0 {
            Some(scan::trim_space(s))
        } else {
            None
        },
        None => None,
    }
}

/// The contents of a file, trimmed, unless nothing is left.
pub fn read_trim(contents: Option<&str>) -> (r: Option<String>)
    ensures
        text::opt_text(r) == trimmed_in(text::opt_str(contents)),
{
    match contents {
        Some(s) => {
            let t = scan::trim(s);
            if text::is_empty(t.as_str()) {
                None
            } else {
                Some(t)
            }
        },
        None => None,
    }
}

/// The last field of a text such as `4: ACTIVE`.
pub open spec fn mnemonic_of(s: Option<Seq<char>>) -> Option<Seq<char>> {
    match s {
        Some(v) => {
            let fields = scan::fields_of(v, CharClass::Space);
            if fields.len() > 0 {
                Some(fields.last())
            } else {
                None
            }
        },
        None => None,
    }
}

/// The number in the first field of a text such as `200 Gb/sec (4X NDR)`.
pub open spec fn rate_of(s: Option<Seq<char>>) -> Option<nat> {
    match s {
        Some(v) => {
            let fields = scan::fields_of(v, CharClass::Space);
            if fields.len() > 0 {
                number::bounded_of(fields[0], 10, u32::MAX as nat)
            } else {
                None
            }
        },
        None => None,
    }
}

/// The mnemonic of a state such as `4: ACTIVE`.
pub fn parse_enum(s: Option<String>) -> (r: Option<String>)
    ensures
        text::opt_text(r) == mnemonic_of(text::opt_text(s)),
{
    match s {
        Some(v) => {
            let fields = scan::fields(v.as_str(), CharClass::Space);
            let n: usize = fields.len();
            proof {
                assert(text::texts(fields@).len() == n);
            }
            if n > 0 {
                proof {
                    assert(text::texts(fields@)[n - 1] == fields@[n - 1]@);
                }
                Some(fields[n - 1].clone())
            } else {
                None
            }
        },
        None => None,
    }
}

/// The whole number that a rate such as `200 Gb/sec (4X NDR)` begins with.
pub fn parse_rate(s: Option<String>) -> (r: Option<u32>)
    ensures
        match r {
            Some(n) => rate_of(text::opt_text(s)) == Some(n as nat),
            None => rate_of(text::opt_text(s)) is None,
        },
{
    match s {
        Some(v) => {
            let fields = scan::fields(v.as_str(), CharClass::Space);
            proof {
                assert(text::texts(fields@).len() == fields@.len());
            }
            if fields.len() > 0 {
                proof {
                    assert(text::texts(fields@)[0] == fields@[0]@);
                }
                number::parse_u32(fields[0].as_str())
            } else {
                None
            }
        },
        None => None,
    }
}

// ---------------------------------------------------------------------
// Scanning
// ---------------------------------------------------------------------

/// A directory of a port, with its readable files.
pub struct PortEntry {
    pub name: String,
    pub files: TextMap<String>,
}

/// The port that a directory describes, if it is named by a number.
pub open spec fn port_of(e: PortEntry) -> Option<PortModel> {
    match number::bounded_of(e.name@, 10, u32::MAX as nat) {
        Some(index) => Some(
            PortModel {
                index,
                state: config::value_or(
                    mnemonic_of(trimmed_in(common::content(e.files, "state"@))),
                    Seq::empty(),
                ),
                phys_state: config::value_or(
                    mnemonic_of(trimmed_in(common::content(e.files, "phys_state"@))),
                    Seq::empty(),
                ),
                link_layer: config::value_or(
                    trimmed_in(common::content(e.files, "link_layer"@)),
                    Seq::empty(),
                ),
                rate_gbps: rate_of(trimmed_in(common::content(e.files, "rate"@))),
            },
        ),
        None => None,
    }
}

/// The ports among directory entries.
pub open spec fn found_ports(entries: Seq<PortEntry>) -> Seq<PortModel>
    decreases entries.len(),
{
    if entries.len() == 0 {
        Seq::empty()
    } else {
        let head = found_ports(entries.drop_last());
        match port_of(entries.last()) {
            Some(p) => head.push(p),
            None => head,
        }
    }
}

/// Ports by their index.
pub open spec fn port_before() -> spec_fn(PortModel, PortModel) -> bool {
    |a: PortModel, b: PortModel| a.index < b.index
}

/// The ports of a device, by index.
pub open spec fn ports_of(entries: Seq<PortEntry>) -> Seq<PortModel> {
    sorting::arranged(found_ports(entries), port_before())
}

fn text_or_empty(o: Option<String>) -> (r: String)
    ensures
        r@ == config::value_or(text::opt_text(o), Seq::empty()),
{
    match o {
        Some(s) => s,
        None => {
            let s = String::new();
            assert(s@ =~= Seq::empty());
            s
        },
    }
}

fn scan_port(e: &PortEntry) -> (r: Option<RdmaPort>)
    ensures
        match r {
            Some(p) => port_of(*e) == Some(p@),
            None => port_of(*e) is None,
        },
{
    match number::parse_u32(e.name.as_str()) {
        Some(index) => Some(
            RdmaPort {
                index,
                state: text_or_empty(parse_enum(read_trim(common::read_file(&e.files, "state")))),
                phys_state: text_or_empty(parse_enum(read_trim(common::read_file(&e.files, "phys_state")))),
                link_layer: text_or_empty(read_trim(common::read_file(&e.files, "link_layer"))),
                rate_gbps: parse_rate(read_trim(common::read_file(&e.files, "rate"))),
            },
        ),
        None => None,
    }
}

fn port_less(a: &RdmaPort, b: &RdmaPort) -> (r: bool)
    ensures
        r == (a.index < b.index),
{
    a.index < b.index
}

/// The ports that directory entries describe, by index.
pub fn scan_ports(entries: &Vec<PortEntry>) -> (r: Vec<RdmaPort>)
    ensures
        port_models(r@) == ports_of(entries@),
{
    let mut out: Vec<RdmaPort> = Vec::new();
    assert(port_models(out@) =~= Seq::empty());
    let mut i: usize = 0;
    while i < entries.len()
        invariant
            i <= entries@.len(),
            port_models(out@) == found_ports(entries@.take(i as int)),
        decreases entries@.len() - i,
    {
        proof {
            let t = entries@.take(i + 1);
            assert(t.drop_last() =~= entries@.take(i as int));
            assert(t.last() == entries@[i as int]);
        }
        match scan_port(&entries[i]) {
            Some(p) => {
                let ghost before = port_models(out@);
                let ghost m = p@;
                out.push(p);
                assert(port_models(out@) =~= before.push(m));
            },
            None => {},
        }
        i = i + 1;
    }
    let ghost before = |a: RdmaPort, b: RdmaPort| a.index < b.index;
    proof {
        assert(entries@.take(entries@.len() as int) =~= entries@);
        sorting::lemma_arranged_map(out@, |p: RdmaPort| p@, before, port_before());
    }
    sorting::arrange(out, port_less, Ghost(before))
}

/// A directory of a device, with the directories of its ports.
pub struct DeviceEntry {
    pub name: String,
    pub ports: Vec<PortEntry>,
}

/// The device that a directory describes.
pub open spec fn device_of(e: DeviceEntry) -> DeviceModel {
    DeviceModel { name: e.name@, ports: ports_of(e.ports@) }
}

/// Devices by their name.
pub open spec fn device_before() -> spec_fn(DeviceModel, DeviceModel) -> bool {
    |a: DeviceModel, b: DeviceModel| text::text_lt(a.name, b.name)
}

fn device_less(a: &RdmaDevice, b: &RdmaDevice) -> (r: bool)
    ensures
        r == text::text_lt(a.name@, b.name@),
{
    text::less(a.name.as_str(), b.name.as_str())
}

/// An active Ethernet port: one that RoCE runs on.
pub open spec fn is_active_roce(p: PortModel) -> bool {
    scan::lower_text(p.state) == scan::lower_text("ACTIVE"@) && scan::lower_text(p.link_layer)
        == scan::lower_text("Ethernet"@)
}

/// Some device has an active Ethernet port.
pub open spec fn has_active_roce(devices: Seq<RdmaDevice>) -> bool {
    exists|d: int, p: int|
        0 <= d < devices.len() && 0 <= p < devices[d].ports@.len() && is_active_roce(
            (#[trigger] devices[d].ports@[p])@,
        )
}

impl RdmaInventory {
    /// The devices that the entries of `/sys/class/infiniband` describe, by
    /// name.
    pub fn scan(entries: &Vec<DeviceEntry>) -> (r: Self)
        ensures
            device_models(r.devices@) == sorting::arranged(
                entries@.map_values(|e: DeviceEntry| device_of(e)),
                device_before(),
            ),
    {
        let ghost all = entries@.map_values(|e: DeviceEntry| device_of(e));
        let mut devices: Vec<RdmaDevice> = Vec::new();
        let mut i: usize = 0;
        assert(device_models(devices@) =~= all.take(0));
        while i < entries.len()
            invariant
                i <= entries@.len(),
                all == entries@.map_values(|e: DeviceEntry| device_of(e)),
                device_models(devices@) == all.take(i as int),
            decreases entries@.len() - i,
        {
            let ghost before = device_models(devices@);
            devices.push(RdmaDevice { name: entries[i].name.clone(), ports: scan_ports(&entries[i].ports) });
            i = i + 1;
            assert(device_models(devices@) =~= before.push(all[i - 1]));
            assert(all.take(i as int) =~= all.take(i - 1).push(all[i - 1]));
        }
        let ghost before = |a: RdmaDevice, b: RdmaDevice| text::text_lt(a.name@, b.name@);
        proof {
            assert(all.take(i as int) =~= all);
            sorting::lemma_arranged_map(devices@, |d: RdmaDevice| d@, before, device_before());
        }
        RdmaInventory { devices: sorting::arrange(devices, device_less, Ghost(before)) }
    }

    /// Whether there are no devices.
    pub fn is_empty(&self) -> (r: bool)
        ensures
            r == (self.devices@.len() == 0),
    {
        self.devices.len() == 0
    }

    /// Whether a probe can run here: some device has an active Ethernet
    /// port. Native InfiniBand does not count.
    pub fn any_active_roce(&self) -> (r: bool)
        ensures
            r == has_active_roce(self.devices@),
    {
        let mut d: usize = 0;
        while d < self.devices.len()
            invariant
                d <= self.devices@.len(),
                forall|a: int, b: int|
                    0 <= a < d && 0 <= b < self.devices@[a].ports@.len() ==> !is_active_roce(
                        (#[trigger] self.devices@[a].ports@[b])@,
                    ),
            decreases self.devices@.len() - d,
        {
            let mut p: usize = 0;
            while p < self.devices[d].ports.len()
                invariant
                    d < self.devices@.len(),
                    p <= self.devices@[d as int].ports@.len(),
                    forall|b: int|
                        0 <= b < p ==> !is_active_roce((#[trigger] self.devices@[d as int].ports@[b])@),
                decreases self.devices@[d as int].ports@.len() - p,
            {
                let port = &self.devices[d].ports[p];
                if scan::same_ignoring_case(port.state.as_str(), "ACTIVE") && scan::same_ignoring_case(
                    port.link_layer.as_str(),
                    "Ethernet",
                ) {
                    assert(is_active_roce(self.devices@[d as int].ports@[p as int]@));
                    return true;
                }
                p = p + 1;
            }
            d = d + 1;
        }
        false
    }
}

impl Default for RdmaInventory {
    fn default() -> (r: Self)
        ensures
            r.devices@.len() == 0,
    {
        RdmaInventory { devices: Vec::new() }
    }
}

} // verus!
