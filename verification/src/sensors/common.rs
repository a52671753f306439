//! What the sensor backends share: reading the files of a device. A file
//! that is missing or makes no sense gives no value, not an error.

use super::{Accelerator, Measurement, Ratio, Vendor};
use crate::number;
use crate::paths;
use crate::scan;
use crate::scan::CharClass;
use crate::sorting;
use crate::text;
use crate::textmap::TextMap;
use vstd::prelude::*;

verus! {

/// One entry of a device's `hwmon` directory, with its readable files.
pub struct HwmonEntry {
    pub name: String,
    pub files: TextMap<String>,
}

/// What was read of a device's directory.
pub struct DeviceFiles {
    /// The readable text files by name.
    pub files: TextMap<String>,
    /// The entries of the `hwmon` directory.
    pub hwmon: Vec<HwmonEntry>,
    /// The last component of the target of the `iommu_group` link, where the
    /// link is there; empty where that component is no text.
    pub iommu_group: Option<String>,
    /// The same of the `driver` link.
    pub driver: Option<String>,
    /// The names in the `drm` directory.
    pub drm: Vec<String>,
    /// There is an `xgmi_link_count` file.
    pub xgmi_link_count: bool,
}

/// What was read of sysfs and proc.
pub struct Sysfs {
    /// Devices by directory.
    pub devices: TextMap<DeviceFiles>,
    /// The directories under `/proc/driver/nvidia/gpus`, each with the
    /// contents of its `information` file where that could be read.
    pub nvidia_gpus: Vec<(String, Option<String>)>,
}

/// The contents of a file.
pub open spec fn content(files: TextMap<String>, name: Seq<char>) -> Option<Seq<char>> {
    if files@.contains_key(name) {
        Some(files@[name]@)
    } else {
        None
    }
}

impl Sysfs {
    /// The contents of the file `name` in the directory `dir`.
    pub open spec fn file(self, dir: Seq<char>, name: Seq<char>) -> Option<Seq<char>> {
        if self.devices@.contains_key(dir) {
            content(self.devices@[dir].files, name)
        } else {
            None
        }
    }

    /// The contents of the file `name` in the directory `dir`.
    pub fn read(&self, dir: &str, name: &str) -> (r: Option<&str>)
        ensures
            text::opt_str(r) == self.file(dir@, name@),
    {
        match self.devices.get(dir) {
            Some(d) => read_file(&d.files, name),
            None => None,
        }
    }
}

/// The contents of the file `name`.
pub fn read_file<'a>(files: &'a TextMap<String>, name: &str) -> (r: Option<&'a str>)
    ensures
        text::opt_str(r) == content(*files, name@),
{
    match files.get(name) {
        Some(s) => Some(s.as_str()),
        None => None,
    }
}

// ---------------------------------------------------------------------
// Values in files
// ---------------------------------------------------------------------

/// The 16-bit number that a file holds in hexadecimal, after `0x` or not.
pub open spec fn hex_u16_in(c: Option<Seq<char>>) -> Option<nat> {
    match c {
        Some(s) => number::bounded_of(
            scan::drop_leading_text(scan::trim_space(s), "0x"@),
            16,
            u16::MAX as nat,
        ),
        None => None,
    }
}

/// The 64-bit number that a file holds.
pub open spec fn u64_in(c: Option<Seq<char>>) -> Option<nat> {
    match c {
        Some(s) => number::bounded_of(scan::trim_space(s), 10, u64::MAX as nat),
        None => None,
    }
}

/// The 32-bit integer that a file holds.
pub open spec fn i32_in(c: Option<Seq<char>>) -> Option<int> {
    match c {
        Some(s) => number::i32_of(scan::trim_space(s)),
        None => None,
    }
}

/// The first line of a file, trimmed.
pub open spec fn first_line_in(c: Option<Seq<char>>) -> Option<Seq<char>> {
    match c {
        Some(s) => if scan::lines_of(s).len() > 0 {
            Some(scan::trim_space(scan::lines_of(s)[0]))
        } else {
            None
        },
        None => None,
    }
}

/// The 16-bit number in hexadecimal that `contents` holds.
pub fn read_hex_u16(contents: Option<&str>) -> (r: Option<u16>)
    ensures
        match r {
            Some(n) => hex_u16_in(text::opt_str(contents)) == Some(n as nat),
            None => hex_u16_in(text::opt_str(contents)) is None,
        },
{
    match contents {
        Some(s) => {
            proof {
                reveal_strlit("0x");
            }
            let digits = scan::trim_start_text(scan::trim(s).as_str(), "0x");
            match number::parse_bounded(digits.as_str(), 16, u16::MAX as u64) {
                Some(n) => Some(n as u16),
                None => None,
            }
        },
        None => None,
    }
}

/// The number that `contents` holds.
pub fn read_u64(contents: Option<&str>) -> (r: Option<u64>)
    ensures
        match r {
            Some(n) => u64_in(text::opt_str(contents)) == Some(n as nat),
            None => u64_in(text::opt_str(contents)) is None,
        },
{
    match contents {
        Some(s) => number::parse_u64(scan::trim(s).as_str()),
        None => None,
    }
}

/// The integer that `contents` holds.
pub fn read_i32(contents: Option<&str>) -> (r: Option<i32>)
    ensures
        match r {
            Some(n) => i32_in(text::opt_str(contents)) == Some(n as int),
            None => i32_in(text::opt_str(contents)) is None,
        },
{
    match contents {
        Some(s) => number::parse_i32(scan::trim(s).as_str()),
        None => None,
    }
}

/// The first line of `contents`, trimmed.
pub fn read_string_first_line(contents: Option<&str>) -> (r: Option<String>)
    ensures
        text::opt_text(r) == first_line_in(text::opt_str(contents)),
{
    match contents {
        Some(s) => {
            let lines = scan::lines(s);
            proof {
                assert(text::texts(lines@).len() == lines@.len());
            }
            if lines.len() > 0 {
                proof {
                    assert(text::texts(lines@)[0] == lines@[0]@);
                }
                Some(scan::trim(lines[0].as_str()))
            } else {
                None
            }
        },
        None => None,
    }
}

// ---------------------------------------------------------------------
// CPU lists
// ---------------------------------------------------------------------

/// The integers from `a` to `b`.
pub open spec fn int_range(a: int, b: int) -> Seq<int>
    decreases b - a + 1,
{
    if a > b {
        Seq::empty()
    } else {
        int_range(a, b - 1).push(b)
    }
}

/// The CPUs that one piece of a list names: `n` or `a-b`.
pub open spec fn piece_cpus(piece: Seq<char>) -> Seq<int> {
    match scan::split_once_of(piece, '-') {
        Some((a, b)) => match (
            number::bounded_of(a, 10, usize::MAX as nat),
            number::bounded_of(b, 10, usize::MAX as nat),
        ) {
            (Some(x), Some(y)) => int_range(x as int, y as int),
            _ => Seq::empty(),
        },
        None => match number::bounded_of(piece, 10, usize::MAX as nat) {
            Some(n) => seq![n as int],
            None => Seq::empty(),
        },
    }
}

/// The CPUs that the pieces of a list name, in order.
pub open spec fn pieces_cpus(pieces: Seq<Seq<char>>) -> Seq<int>
    decreases pieces.len(),
{
    if pieces.len() == 0 {
        Seq::empty()
    } else {
        pieces_cpus(pieces.drop_last()) + piece_cpus(scan::trim_space(pieces.last()))
    }
}

/// The CPUs that a list such as `0-7,16-23` names.
pub open spec fn cpulist(s: Seq<char>) -> Seq<int> {
    pieces_cpus(scan::split_of(s, ','))
}

/// Machine integers as mathematical ones.
pub open spec fn ints(v: Seq<usize>) -> Seq<int> {
    v.map_values(|n: usize| n as int)
}

/// The CPUs that a list such as `0-7,16-23` names, in order. Pieces that
/// name none are passed over.
pub fn parse_cpulist(s: &str) -> (r: Vec<usize>)
    ensures
        ints(r@) == cpulist(s@),
{
    let pieces = scan::split(s, ',');
    let mut out: Vec<usize> = Vec::new();
    let mut i: usize = 0;
    while i < pieces.len()
        invariant
            i <= pieces@.len(),
            ints(out@) == pieces_cpus(text::texts(pieces@).take(i as int)),
        decreases pieces@.len() - i,
    {
        let piece = scan::trim(pieces[i].as_str());
        let ghost before = ints(out@);
        let ghost named = piece_cpus(piece@);
        proof {
            let t = text::texts(pieces@).take(i + 1);
            assert(t.drop_last() =~= text::texts(pieces@).take(i as int));
            assert(t.last() == pieces@[i as int]@);
        }
        match scan::split_once(piece.as_str(), '-') {
            Some((a, b)) => {
                let lo: Option<usize> = number::parse_usize(a.as_str());
                let hi: Option<usize> = number::parse_usize(b.as_str());
                match (lo, hi) {
                    (Some(x), Some(y)) => {
                        push_range(&mut out, x, y);
                    },
                    _ => {
                        assert(before + named =~= before);
                    },
                }
            },
            None => {
                match number::parse_usize(piece.as_str()) {
                    Some(n) => {
                        out.push(n);
                        assert(ints(out@) =~= before + named);
                    },
                    None => {
                        assert(before + named =~= before);
                    },
                }
            },
        }
        i = i + 1;
    }
    assert(text::texts(pieces@).take(pieces@.len() as int) =~= text::texts(pieces@));
    out
}

fn push_range(out: &mut Vec<usize>, a: usize, b: usize)
    ensures
        ints(final(out)@) == ints(old(out)@) + int_range(a as int, b as int),
{
    let ghost before = ints(out@);
    if a > b {
        assert(before + int_range(a as int, b as int) =~= before);
        return;
    }
    out.push(a);
    assert(int_range(a as int, a as int) =~= seq![a as int]) by {
        reveal_with_fuel(int_range, 2);
    }
    assert(ints(out@) =~= before + int_range(a as int, a as int));
    let mut k: usize = a;
    while k < b
        invariant
            a <= k <= b,
            ints(out@) == before + int_range(a as int, k as int),
        decreases b - k,
    {
        let ghost so_far = ints(out@);
        k = k + 1;
        out.push(k);
        assert(ints(out@) =~= so_far.push(k as int));
        assert(before + int_range(a as int, k as int) =~= (before + int_range(a as int, k - 1)).push(k as int));
    }
}

proof fn lemma_pieces_joined(a: Seq<Seq<char>>, b: Seq<Seq<char>>)
    ensures
        pieces_cpus(a + b) == pieces_cpus(a) + pieces_cpus(b),
    decreases b.len(),
{
    if b.len() == 0 {
        assert(a + b =~= a);
        assert(pieces_cpus(a) + pieces_cpus(b) =~= pieces_cpus(a));
    } else {
        lemma_pieces_joined(a, b.drop_last());
        assert((a + b).drop_last() =~= a + b.drop_last());
        assert(pieces_cpus(a + b) =~= pieces_cpus(a) + pieces_cpus(b));
    }
}

/// Two lists with a comma between them name the CPUs of the first, then those
/// of the second.
pub proof fn law_cpu_lists_join(a: Seq<char>, b: Seq<char>)
    ensures
        cpulist(a + seq![','] + b) == cpulist(a) + cpulist(b),
{
    scan::lemma_split_joined(a, b, ',');
    lemma_pieces_joined(scan::split_of(a, ','), scan::split_of(b, ','));
}

/// The CPUs local to a device: those that its file `local_cpulist` names.
pub open spec fn local_cpus_of(fs: Sysfs, dir: Seq<char>) -> Seq<int> {
    match first_line_in(fs.file(dir, "local_cpulist"@)) {
        Some(s) => cpulist(s),
        None => Seq::empty(),
    }
}

/// The CPUs local to the device in `device_dir`.
pub fn read_local_cpus(fs: &Sysfs, device_dir: &str) -> (r: Vec<usize>)
    ensures
        ints(r@) == local_cpus_of(*fs, device_dir@),
{
    match read_string_first_line(fs.read(device_dir, "local_cpulist")) {
        Some(s) => parse_cpulist(s.as_str()),
        None => {
            let r: Vec<usize> = Vec::new();
            assert(ints(r@) =~= Seq::<int>::empty());
            r
        },
    }
}

// ---------------------------------------------------------------------
// PCI
// ---------------------------------------------------------------------

/// The number that a field holds in hexadecimal, zero where it holds none.
pub open spec fn hex_field(s: Seq<char>) -> u64 {
    match number::bounded_of(scan::drop_leading_text(s, "0x"@), 16, u64::MAX as nat) {
        Some(n) => n as u64,
        None => 0,
    }
}

/// The number in the field of a line with the given index.
pub open spec fn hex_field_at(fields: Seq<Seq<char>>, i: int) -> u64 {
    if i < fields.len() {
        hex_field(fields[i])
    } else {
        0
    }
}

/// The size of the region that a line `start end flags` describes, in the
/// arithmetic of 64-bit integers; zero for one that starts at zero.
pub open spec fn bar_size(line: Seq<char>) -> u64 {
    let fields = scan::fields_of(line, CharClass::AsciiSpace);
    let start = hex_field_at(fields, 0);
    let end = hex_field_at(fields, 1);
    if start == 0 {
        0
    } else {
        end.wrapping_sub(start).wrapping_add(1)
    }
}

/// The sizes of the regions of a device, by its file `resource`.
pub open spec fn pci_bars_of(fs: Sysfs, dir: Seq<char>) -> Seq<u64> {
    match fs.file(dir, "resource"@) {
        Some(s) => scan::lines_of(s).map_values(|line: Seq<char>| bar_size(line)),
        None => Seq::empty(),
    }
}

/// The size of one region, zero where the device has no such region.
pub open spec fn pci_bar(fs: Sysfs, dir: Seq<char>, i: int) -> u64 {
    let bars = pci_bars_of(fs, dir);
    if 0 <= i < bars.len() {
        bars[i]
    } else {
        0
    }
}

fn parse_hex(s: &str) -> (r: u64)
    ensures
        r == hex_field(s@),
{
    proof {
        reveal_strlit("0x");
    }
    let digits = scan::trim_start_text(s, "0x");
    match number::parse_bounded(digits.as_str(), 16, u64::MAX) {
        Some(n) => n,
        None => 0,
    }
}

fn parse_bar(line: &str) -> (r: u64)
    ensures
        r == bar_size(line@),
{
    let fields = scan::fields(line, CharClass::AsciiSpace);
    proof {
        assert(text::texts(fields@).len() == fields@.len());
        assert(forall|i: int| 0 <= i < fields@.len() ==> text::texts(fields@)[i] == #[trigger] fields@[i]@);
    }
    let start: u64 = if fields.len() > 0 {
        parse_hex(fields[0].as_str())
    } else {
        0
    };
    let end: u64 = if fields.len() > 1 {
        parse_hex(fields[1].as_str())
    } else {
        0
    };
    if start == 0 {
        0
    } else {
        end.wrapping_sub(start).wrapping_add(1)
    }
}

/// The sizes of the regions of the device in `device_dir`. A region that is
/// not mapped has size zero.
pub fn read_pci_bars(fs: &Sysfs, device_dir: &str) -> (r: Vec<u64>)
    ensures
        r@ == pci_bars_of(*fs, device_dir@),
{
    let mut out: Vec<u64> = Vec::new();
    match fs.read(device_dir, "resource") {
        Some(s) => {
            let lines = scan::lines(s);
            let ghost sizes = scan::lines_of(s@).map_values(|line: Seq<char>| bar_size(line));
            proof {
                assert(text::texts(lines@).len() == lines@.len());
            }
            let mut i: usize = 0;
            while i < lines.len()
                invariant
                    i <= lines@.len(),
                    lines@.len() == sizes.len(),
                    text::texts(lines@) == scan::lines_of(s@),
                    sizes == scan::lines_of(s@).map_values(|line: Seq<char>| bar_size(line)),
                    out@ == sizes.take(i as int),
                decreases lines@.len() - i,
            {
                out.push(parse_bar(lines[i].as_str()));
                proof {
                    assert(text::texts(lines@)[i as int] == lines@[i as int]@);
                    assert(out@ =~= sizes.take(i + 1));
                }
                i = i + 1;
            }
            assert(sizes.take(sizes.len() as int) =~= sizes);
        },
        None => {},
    }
    out
}

/// The PCI address that a device's directory is named by.
pub open spec fn pci_addr_of(dir: Seq<char>) -> Option<Seq<char>> {
    match paths::file_name_of(dir) {
        Some(s) => if exists|i: int| 0 <= i < s.len() && #[trigger] s[i] == ':' {
            Some(s)
        } else {
            None
        },
        None => None,
    }
}

/// The PCI address in a directory such as
/// `/sys/devices/pci0000:00/0000:00:01.1/0000:01:00.0`.
pub fn pci_addr_from_device_dir(device_dir: &str) -> (r: Option<String>)
    ensures
        text::opt_text(r) == pci_addr_of(device_dir@),
{
    match paths::file_name(device_dir) {
        Some(s) => {
            let colon = scan::has_char(s.as_str(), CharClass::One(':'));
            proof {
                if colon {
                    let i = choose|i: int| 0 <= i < s@.len() && CharClass::One(':').has(#[trigger] s@[i]);
                    assert(s@[i] == ':');
                } else {
                    assert forall|i: int| 0 <= i < s@.len() implies #[trigger] s@[i] != ':' by {
                        assert(!CharClass::One(':').has(s@[i]));
                    }
                }
            }
            if colon {
                Some(s)
            } else {
                None
            }
        },
        None => None,
    }
}

/// The vendor of a device, by its file `vendor`.
pub open spec fn vendor_of(fs: Sysfs, dir: Seq<char>) -> Vendor {
    match hex_u16_in(fs.file(dir, "vendor"@)) {
        Some(n) => Vendor::of_pci_id(n),
        None => Vendor::Other,
    }
}

/// The vendor of the device in `device_dir`.
pub fn card_vendor(fs: &Sysfs, device_dir: &str) -> (r: Vendor)
    ensures
        r == vendor_of(*fs, device_dir@),
{
    match read_hex_u16(fs.read(device_dir, "vendor")) {
        Some(n) => Vendor::from_pci_id(n),
        None => Vendor::Other,
    }
}

/// The SR-IOV capacity of a device: supported and configured functions.
pub open spec fn sriov_of(fs: Sysfs, dir: Seq<char>) -> Option<(nat, nat)> {
    match u64_in(fs.file(dir, "sriov_totalvfs"@)) {
        Some(total) => Some(
            (
                total,
                match u64_in(fs.file(dir, "sriov_numvfs"@)) {
                    Some(n) => n,
                    None => 0,
                },
            ),
        ),
        None => None,
    }
}

/// How many virtual functions the device in `device_dir` supports, and how
/// many are configured.
pub fn sriov_capacity(fs: &Sysfs, device_dir: &str) -> (r: Option<(u64, u64)>)
    ensures
        match r {
            Some((total, current)) => sriov_of(*fs, device_dir@) == Some((total as nat, current as nat)),
            None => sriov_of(*fs, device_dir@) is None,
        },
{
    match read_u64(fs.read(device_dir, "sriov_totalvfs")) {
        Some(total) => {
            let current: u64 = match read_u64(fs.read(device_dir, "sriov_numvfs")) {
                Some(n) => n,
                None => 0,
            };
            Some((total, current))
        },
        None => None,
    }
}

// ---------------------------------------------------------------------
// Cards
// ---------------------------------------------------------------------

/// The minor of a DRM directory named `card<N>`. Connectors such as
/// `card0-DP-4` have none.
pub open spec fn card_index_of(name: Seq<char>) -> Option<nat> {
    match scan::prefix_stripped(name, "card"@) {
        Some(rest) => number::bounded_of(rest, 10, u32::MAX as nat),
        None => None,
    }
}

/// The minor of the DRM directory `name`.
pub fn card_index(name: &str) -> (r: Option<u32>)
    ensures
        match r {
            Some(n) => card_index_of(name@) == Some(n as nat),
            None => card_index_of(name@) is None,
        },
{
    match scan::strip_prefix(name, "card") {
        Some(rest) => number::parse_u32(rest.as_str()),
        None => None,
    }
}

/// A DRM card: its minor and the directory of its device.
pub type CardModel = (nat, Seq<char>);

/// The cards among directory entries, each with the directory that its
/// `device` link resolves to.
pub open spec fn found_cards(entries: Seq<(String, Option<String>)>) -> Seq<CardModel>
    decreases entries.len(),
{
    if entries.len() == 0 {
        Seq::empty()
    } else {
        let head = found_cards(entries.drop_last());
        let e = entries.last();
        match (card_index_of(e.0@), e.1) {
            (Some(n), Some(dir)) => head.push((n, dir@)),
            _ => head,
        }
    }
}

/// Cards by their minor.
pub open spec fn card_before() -> spec_fn(CardModel, CardModel) -> bool {
    |a: CardModel, b: CardModel| a.0 < b.0
}

/// The models of cards.
pub open spec fn card_models(v: Seq<(u32, String)>) -> Seq<CardModel> {
    v.map_values(|c: (u32, String)| (c.0 as nat, c.1@))
}

/// The cards among the entries of the DRM directory, by minor.
pub fn drm_cards(entries: &Vec<(String, Option<String>)>) -> (r: Vec<(u32, String)>)
    ensures
        card_models(r@) == sorting::arranged(found_cards(entries@), card_before()),
{
    let mut found: Vec<(u32, String)> = Vec::new();
    let mut i: usize = 0;
    assert(card_models(found@) =~= found_cards(entries@.take(0)));
    while i < entries.len()
        invariant
            i <= entries@.len(),
            card_models(found@) == found_cards(entries@.take(i as int)),
        decreases entries@.len() - i,
    {
        let ghost before = found@;
        proof {
            let t = entries@.take(i + 1);
            assert(t.drop_last() =~= entries@.take(i as int));
            assert(t.last() == entries@[i as int]);
        }
        let index: Option<u32> = card_index(entries[i].0.as_str());
        match (index, &entries[i].1) {
            (Some(n), Some(dir)) => {
                found.push((n, dir.clone()));
                assert(card_models(found@) =~= card_models(before).push((n as nat, dir@)));
            },
            _ => {},
        }
        i = i + 1;
    }
    let ghost by_minor = |a: (u32, String), b: (u32, String)| a.0 < b.0;
    proof {
        assert(entries@.take(entries@.len() as int) =~= entries@);
        sorting::lemma_arranged_map(
            found@,
            |c: (u32, String)| (c.0 as nat, c.1@),
            by_minor,
            card_before(),
        );
    }
    sorting::arrange(found, minor_less, Ghost(by_minor))
}

fn minor_less(a: &(u32, String), b: &(u32, String)) -> (r: bool)
    ensures
        r == (a.0 < b.0),
{
    a.0 < b.0
}

/// The cards of one vendor.
pub open spec fn cards_of_vendor(fs: Sysfs, cards: Seq<(u32, String)>, vendor: Vendor) -> Seq<(u32, String)> {
    cards.filter(|c: (u32, String)| vendor_of(fs, c.1@) == vendor)
}

/// An accelerator for each card of the vendor, in order, made by `build`.
pub fn enumerate_for_vendor<F: Fn(u32, String) -> Accelerator>(
    fs: &Sysfs,
    vendor: Vendor,
    cards: &Vec<(u32, String)>,
    build: F,
) -> (r: Vec<Accelerator>)
    requires
        forall|n: u32, dir: String| #[trigger] build.requires((n, dir)),
    ensures
        r@.len() == cards_of_vendor(*fs, cards@, vendor).len(),
        forall|i: int|
            0 <= i < r@.len() ==> build.ensures(
                cards_of_vendor(*fs, cards@, vendor)[i],
                #[trigger] r@[i],
            ),
{
    let mut out: Vec<Accelerator> = Vec::new();
    let ghost keep = |c: (u32, String)| vendor_of(*fs, c.1@) == vendor;
    let mut i: usize = 0;
    assert(cards@.take(0).filter(keep) =~= Seq::empty()) by {
        reveal(Seq::filter);
    }
    while i < cards.len()
        invariant
            forall|n: u32, dir: String| #[trigger] build.requires((n, dir)),
            keep == (|c: (u32, String)| vendor_of(*fs, c.1@) == vendor),
            i <= cards@.len(),
            out@.len() == cards@.take(i as int).filter(keep).len(),
            forall|j: int|
                0 <= j < out@.len() ==> build.ensures(cards@.take(i as int).filter(keep)[j], #[trigger] out@[j]),
        decreases cards@.len() - i,
    {
        proof {
            assert(cards@.take(i + 1) =~= cards@.take(i as int).push(cards@[i as int]));
            sorting::lemma_filter_push(cards@.take(i as int), cards@[i as int], keep);
        }
        if card_vendor(fs, cards[i].1.as_str()) == vendor {
            let n: u32 = cards[i].0;
            let dir = cards[i].1.clone();
            assert((n, dir) == cards@[i as int]);
            out.push(build(n, dir));
        }
        i = i + 1;
    }
    assert(cards@.take(cards@.len() as int) =~= cards@);
    out
}

// ---------------------------------------------------------------------
// hwmon
// ---------------------------------------------------------------------

/// The hwmon directories of a device.
pub open spec fn hwmon_of(fs: Sysfs, dir: Seq<char>) -> Seq<HwmonEntry> {
    if fs.devices@.contains_key(dir) {
        fs.devices@[dir].hwmon@.filter(|e: HwmonEntry| scan::has_prefix(e.name@, "hwmon"@))
    } else {
        Seq::empty()
    }
}

/// The hwmon directories of the device in `device_dir`.
pub fn hwmon_dirs<'a>(fs: &'a Sysfs, device_dir: &str) -> (r: Vec<&'a HwmonEntry>)
    ensures
        r@.map_values(|e: &'a HwmonEntry| *e) == hwmon_of(*fs, device_dir@),
{
    let mut out: Vec<&'a HwmonEntry> = Vec::new();
    match fs.devices.get(device_dir) {
        Some(d) => {
            let ghost keep = |e: HwmonEntry| scan::has_prefix(e.name@, "hwmon"@);
            let mut i: usize = 0;
            assert(d.hwmon@.take(0).filter(keep) =~= Seq::empty()) by {
                reveal(Seq::filter);
            }
            assert(out@.map_values(|e: &'a HwmonEntry| *e) =~= Seq::empty());
            while i < d.hwmon.len()
                invariant
                    keep == (|e: HwmonEntry| scan::has_prefix(e.name@, "hwmon"@)),
                    i <= d.hwmon@.len(),
                    out@.map_values(|e: &'a HwmonEntry| *e) == d.hwmon@.take(i as int).filter(keep),
                decreases d.hwmon@.len() - i,
            {
                let ghost before = out@;
                proof {
                    assert(d.hwmon@.take(i + 1) =~= d.hwmon@.take(i as int).push(d.hwmon@[i as int]));
                    sorting::lemma_filter_push(d.hwmon@.take(i as int), d.hwmon@[i as int], keep);
                }
                if scan::starts_with(d.hwmon[i].name.as_str(), "hwmon") {
                    out.push(&d.hwmon[i]);
                    assert(out@.map_values(|e: &'a HwmonEntry| *e) =~= before.map_values(
                        |e: &'a HwmonEntry| *e,
                    ).push(d.hwmon@[i as int]));
                }
                i = i + 1;
            }
            assert(d.hwmon@.take(d.hwmon@.len() as int) =~= d.hwmon@);
        },
        None => {
            assert(out@.map_values(|e: &'a HwmonEntry| *e) =~= Seq::empty());
        },
    }
    out
}

/// The first temperature, in thousandths of a degree, that a hwmon directory
/// holds.
pub open spec fn first_temperature(hwmon: Seq<HwmonEntry>) -> Option<nat>
    decreases hwmon.len(),
{
    if hwmon.len() == 0 {
        None
    } else {
        match u64_in(content(hwmon[0].files, "temp1_input"@)) {
            Some(t) => Some(t),
            None => first_temperature(hwmon.drop_first()),
        }
    }
}

/// A temperature in degrees Celsius.
pub open spec fn opt_ratio(o: Option<nat>, divisor: u64) -> Option<Ratio> {
    match o {
        Some(n) => Some(Ratio { raw: n as u64, divisor }),
        None => None,
    }
}

/// The first hwmon temperature of the device in `device_dir`, in degrees
/// Celsius.
pub fn hwmon_temperature_celsius(fs: &Sysfs, device_dir: &str) -> (r: Option<Ratio>)
    ensures
        r == opt_ratio(first_temperature(hwmon_of(*fs, device_dir@)), 1000),
{
    let dirs = hwmon_dirs(fs, device_dir);
    let ghost all = hwmon_of(*fs, device_dir@);
    let mut i: usize = 0;
    proof {
        assert(all.skip(0) =~= all);
        assert(all.len() == dirs@.len());
    }
    while i < dirs.len()
        invariant
            i <= dirs@.len(),
            all == hwmon_of(*fs, device_dir@),
            all == dirs@.map_values(|e: &HwmonEntry| *e),
            first_temperature(all.skip(i as int)) == first_temperature(all),
        decreases dirs@.len() - i,
    {
        let ghost rest = all.skip(i as int);
        proof {
            assert(rest[0] == *dirs@[i as int]);
            assert(rest.drop_first() =~= all.skip(i + 1));
        }
        match read_u64(read_file(&dirs[i].files, "temp1_input")) {
            Some(t) => {
                return Some(Ratio { raw: t, divisor: 1000 });
            },
            None => {},
        }
        i = i + 1;
    }
    assert(all.skip(i as int) =~= Seq::empty());
    None
}

// ---------------------------------------------------------------------
// Partitions
// ---------------------------------------------------------------------

/// The accelerator shares the parent of its device with another one.
pub open spec fn shares_parent(accels: Seq<Accelerator>, i: int) -> bool {
    paths::parent_of(accels[i].device_dir@) is Some && exists|j: int|
        0 <= j < accels.len() && j != i && paths::parent_of((#[trigger] accels[j]).device_dir@)
            == paths::parent_of(accels[i].device_dir@)
}

/// Virtual functions are configured on the device.
pub open spec fn sriov_active(fs: Sysfs, dir: Seq<char>) -> bool {
    match u64_in(fs.file(dir, "sriov_numvfs"@)) {
        Some(n) => n > 0,
        None => false,
    }
}

fn parent_shared(parents: &Vec<Option<paths::PathParts>>, i: usize) -> (r: bool)
    requires
        i < parents@.len(),
    ensures
        r == (parents@[i as int] is Some && exists|j: int|
            0 <= j < parents@.len() && j != i && paths::opt_path(#[trigger] parents@[j]) == paths::opt_path(
                parents@[i as int],
            )),
{
    if parents[i].is_none() {
        return false;
    }
    let mut j: usize = 0;
    while j < parents.len()
        invariant
            i < parents@.len(),
            parents@[i as int] is Some,
            j <= parents@.len(),
            forall|k: int|
                0 <= k < j && k != i ==> paths::opt_path(#[trigger] parents@[k]) != paths::opt_path(
                    parents@[i as int],
                ),
        decreases parents@.len() - j,
    {
        if j != i && paths::same_opt_path(&parents[j], &parents[i]) {
            return true;
        }
        j = j + 1;
    }
    false
}

/// The accelerators `after` are those `before` with partitions marked.
pub open spec fn marked(fs: Sysfs, before: Seq<Accelerator>, after: Seq<Accelerator>) -> bool {
    &&& after.len() == before.len()
    &&& forall|i: int|
        0 <= i < before.len() ==> #[trigger] after[i] == (Accelerator {
            partitioned: before[i].partitioned || shares_parent(before, i) || sriov_active(
                fs,
                before[i].device_dir@,
            ),
            ..before[i]
        })
}

/// Marks accelerators that share the parent of their device, and those with
/// virtual functions configured, as partitioned. A mark is never taken away.
pub fn mark_partitions(accels: &mut Vec<Accelerator>, fs: &Sysfs)
    ensures
        marked(*fs, old(accels)@, final(accels)@),
{
    let ghost before = accels@;
    let mut parents: Vec<Option<paths::PathParts>> = Vec::new();
    let mut i: usize = 0;
    while i < accels.len()
        invariant
            accels@ == before,
            i <= accels@.len(),
            parents@.len() == i,
            forall|k: int|
                0 <= k < i ==> paths::opt_path(#[trigger] parents@[k]) == paths::parent_of(
                    before[k].device_dir@,
                ),
        decreases accels@.len() - i,
    {
        parents.push(paths::parent(accels[i].device_dir.as_str()));
        i = i + 1;
    }
    let mut k: usize = 0;
    while k < accels.len()
        invariant
            accels@.len() == before.len(),
            parents@.len() == before.len(),
            k <= accels@.len(),
            forall|j: int|
                0 <= j < before.len() ==> paths::opt_path(#[trigger] parents@[j]) == paths::parent_of(
                    before[j].device_dir@,
                ),
            forall|j: int| k <= j < before.len() ==> #[trigger] accels@[j] == before[j],
            forall|j: int|
                0 <= j < k ==> #[trigger] accels@[j] == (Accelerator {
                    partitioned: before[j].partitioned || shares_parent(before, j) || sriov_active(
                        *fs,
                        before[j].device_dir@,
                    ),
                    ..before[j]
                }),
        decreases accels@.len() - k,
    {
        let shared = parent_shared(&parents, k);
        let sriov = match read_u64(fs.read(accels[k].device_dir.as_str(), "sriov_numvfs")) {
            Some(n) => n > 0,
            None => false,
        };
        proof {
            assert(shared == shares_parent(before, k as int)) by {
                if shared {
                    let j = choose|j: int|
                        0 <= j < parents@.len() && j != k && paths::opt_path(#[trigger] parents@[j])
                            == paths::opt_path(parents@[k as int]);
                    assert(paths::parent_of(before[j].device_dir@) == paths::parent_of(before[k as int].device_dir@));
                } else if shares_parent(before, k as int) {
                    let j = choose|j: int|
                        0 <= j < before.len() && j != k && paths::parent_of((#[trigger] before[j]).device_dir@)
                            == paths::parent_of(before[k as int].device_dir@);
                    assert(paths::opt_path(parents@[j]) == paths::opt_path(parents@[k as int]));
                }
            }
        }
        let marked = accels[k].partitioned || shared || sriov;
        accels[k].partitioned = marked;
        k = k + 1;
    }
}

// ---------------------------------------------------------------------
// Measurements
// ---------------------------------------------------------------------

/// A measurement without attributes of its own.
pub fn measurement(
    name: &'static str,
    unit: &'static str,
    description: &'static str,
    value: Ratio,
) -> (r: Measurement)
    ensures
        r@ == super::plain(name@, unit@, description@, value),
{
    let r = Measurement { name, unit, description, value, attrs: Vec::new() };
    assert(r@.attrs =~= Seq::empty());
    r
}

/// At most one measurement: that of the value, if there is one.
pub open spec fn gauge(
    name: Seq<char>,
    unit: Seq<char>,
    description: Seq<char>,
    value: Option<nat>,
    divisor: u64,
) -> Seq<super::MeasurementModel> {
    match opt_ratio(value, divisor) {
        Some(v) => seq![super::plain(name, unit, description, v)],
        None => Seq::empty(),
    }
}

/// Adds the measurement of the value, if there is one.
pub fn push_gauge(
    out: &mut Vec<Measurement>,
    name: &'static str,
    unit: &'static str,
    description: &'static str,
    value: Option<u64>,
    divisor: u64,
)
    ensures
        super::models(final(out)@) == super::models(old(out)@) + gauge(
            name@,
            unit@,
            description@,
            match value {
                Some(v) => Some(v as nat),
                None => None,
            },
            divisor,
        ),
{
    let ghost before = super::models(out@);
    match value {
        Some(v) => {
            let m = measurement(name, unit, description, Ratio { raw: v, divisor });
            let ghost model = m@;
            out.push(m);
            assert(super::models(out@) =~= before + seq![model]);
        },
        None => {
            assert(before + Seq::<super::MeasurementModel>::empty() =~= before);
        },
    }
}

/// The health of a sensor: one where the device reads back as the vendor's.
pub open spec fn health_of(fs: Sysfs, dir: Seq<char>, expected: Vendor) -> super::MeasurementModel {
    super::plain(
        "accel.sensor.health"@,
        "1"@,
        "1 = sensor reads succeeding, 0 = backend broken."@,
        Ratio {
            raw: if vendor_of(fs, dir) == expected {
                1
            } else {
                0
            },
            divisor: 1,
        },
    )
}

/// The health of the sensor of the device in `device_dir`.
pub fn sensor_health(fs: &Sysfs, device_dir: &str, expected: Vendor) -> (r: Measurement)
    ensures
        r@ == health_of(*fs, device_dir@, expected),
{
    let healthy = card_vendor(fs, device_dir) == expected;
    let raw: u64 = if healthy {
        1
    } else {
        0
    };
    measurement(
        "accel.sensor.health",
        "1",
        "1 = sensor reads succeeding, 0 = backend broken.",
        Ratio { raw, divisor: 1 },
    )
}

} // verus!
