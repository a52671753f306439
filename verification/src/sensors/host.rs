//! What a node as a whole has: memory and disk. Schedulers need both before
//! they place a job.

use super::common;
use super::{Measurement, MeasurementModel, Ratio};
use crate::config;
use crate::number;
use crate::scan;
use crate::scan::CharClass;
use crate::sensors;
use crate::text;
use crate::textmap::TextMap;
use vstd::prelude::*;

verus! {

// ---------------------------------------------------------------------
// Memory
// ---------------------------------------------------------------------

/// A product, or the greatest 64-bit number.
pub open spec fn capped(n: int) -> u64 {
    if n > u64::MAX {
        u64::MAX
    } else {
        n as u64
    }
}

/// The number of bytes that a count and its unit stand for.
pub open spec fn bytes_of(count: nat, unit: Seq<char>) -> u64 {
    if unit == "kB"@ || unit == "KB"@ {
        capped((count * 1024) as int)
    } else if unit == "MB"@ {
        capped((count * 1_048_576) as int)
    } else {
        capped(count as int)
    }
}

/// The entry that a line `key: count unit` of meminfo makes.
pub open spec fn meminfo_entry(line: Seq<char>) -> Option<(Seq<char>, u64)> {
    match scan::split_once_of(line, ':') {
        Some((key, rest)) => {
            let parts = scan::fields_of(rest, CharClass::Space);
            if parts.len() == 0 {
                None
            } else {
                match number::bounded_of(parts[0], 10, u64::MAX as nat) {
                    Some(n) => Some(
                        (
                            scan::trim_space(key),
                            bytes_of(
                                n,
                                if parts.len() > 1 {
                                    parts[1]
                                } else {
                                    Seq::empty()
                                },
                            ),
                        ),
                    ),
                    None => None,
                }
            }
        },
        None => None,
    }
}

/// The entries of meminfo in bytes. Of two lines with one key the later one
/// counts.
pub open spec fn meminfo_of(lines: Seq<Seq<char>>) -> Map<Seq<char>, u64>
    decreases lines.len(),
{
    if lines.len() == 0 {
        Map::empty()
    } else {
        let head = meminfo_of(lines.drop_last());
        match meminfo_entry(lines.last()) {
            Some((k, v)) => head.insert(k, v),
            None => head,
        }
    }
}

fn times(n: u64, factor: u64) -> (r: u64)
    ensures
        r == capped(n * factor),
{
    assert(n * factor <= u64::MAX * u64::MAX) by (nonlinear_arith)
        requires
            n <= u64::MAX,
            factor <= u64::MAX,
    ;
    let p: u128 = n as u128 * factor as u128;
    if p > u64::MAX as u128 {
        u64::MAX
    } else {
        p as u64
    }
}

fn parse_meminfo_line(line: &str) -> (r: Option<(String, u64)>)
    ensures
        match r {
            Some((k, v)) => meminfo_entry(line@) == Some((k@, v)),
            None => meminfo_entry(line@) is None,
        },
{
    match scan::split_once(line, ':') {
        Some((key, rest)) => {
            let parts = scan::fields(rest.as_str(), CharClass::Space);
            proof {
                assert(text::texts(parts@).len() == parts@.len());
                assert(forall|i: int|
                    0 <= i < parts@.len() ==> text::texts(parts@)[i] == #[trigger] parts@[i]@);
            }
            if parts.len() == 0 {
                return None;
            }
            let num: u64 = match number::parse_u64(parts[0].as_str()) {
                Some(n) => n,
                None => {
                    return None;
                },
            };
            let unit = if parts.len() > 1 {
                parts[1].clone()
            } else {
                let s = String::new();
                assert(s@ =~= Seq::empty());
                s
            };
            let bytes: u64 = if text::same(unit.as_str(), "kB") || text::same(unit.as_str(), "KB") {
                times(num, 1024)
            } else if text::same(unit.as_str(), "MB") {
                times(num, 1_048_576)
            } else {
                num
            };
            Some((scan::trim(key.as_str()), bytes))
        },
        None => None,
    }
}

/// The entries of the meminfo file `content`, in bytes. Lines that make no
/// sense are passed over.
pub fn parse_meminfo_str(content: &str) -> (r: TextMap<u64>)
    ensures
        r@ == meminfo_of(scan::lines_of(content@)),
{
    let lines = scan::lines(content);
    let ghost all = scan::lines_of(content@);
    let mut out: TextMap<u64> = TextMap::new();
    let mut i: usize = 0;
    assert(all.len() == lines@.len());
    while i < lines.len()
        invariant
            i <= lines@.len(),
            all == text::texts(lines@),
            out@ == meminfo_of(all.take(i as int)),
        decreases lines@.len() - i,
    {
        proof {
            let t = all.take(i + 1);
            assert(t.drop_last() =~= all.take(i as int));
            assert(t.last() == lines@[i as int]@);
        }
        match parse_meminfo_line(lines[i].as_str()) {
            Some((k, v)) => {
                out.insert(k, v);
            },
            None => {},
        }
        i = i + 1;
    }
    assert(all.take(all.len() as int) =~= all);
    out
}

/// An entry of a map.
pub open spec fn entry(m: Map<Seq<char>, u64>, key: Seq<char>) -> Option<nat> {
    if m.contains_key(key) {
        Some(m[key] as nat)
    } else {
        None
    }
}

/// What the memory of the node comes to: total, available, and swap where
/// both its size and its free part are known.
pub open spec fn memory_measurements(m: Map<Seq<char>, u64>) -> Seq<MeasurementModel> {
    let swap = m.contains_key("SwapTotal"@) && m.contains_key("SwapFree"@);
    common::gauge(
        "host.memory.total_bytes"@,
        "By"@,
        "MemTotal from /proc/meminfo — usable RAM as the kernel sees it."@,
        entry(m, "MemTotal"@),
        1,
    ) + common::gauge(
        "host.memory.available_bytes"@,
        "By"@,
        "MemAvailable from /proc/meminfo — what userspace can actually allocate."@,
        entry(m, "MemAvailable"@),
        1,
    ) + common::gauge(
        "host.memory.swap.total_bytes"@,
        "By"@,
        "SwapTotal from /proc/meminfo."@,
        if swap {
            Some(m["SwapTotal"@] as nat)
        } else {
            None
        },
        1,
    ) + common::gauge(
        "host.memory.swap.used_bytes"@,
        "By"@,
        "SwapTotal - SwapFree."@,
        if swap {
            Some(
                if m["SwapTotal"@] >= m["SwapFree"@] {
                    (m["SwapTotal"@] - m["SwapFree"@]) as nat
                } else {
                    0
                },
            )
        } else {
            None
        },
        1,
    )
}

fn value_at(m: &TextMap<u64>, key: &str) -> (r: Option<u64>)
    ensures
        config::opt_nat(r) == entry(m@, key@),
{
    match m.get(key) {
        Some(v) => Some(*v),
        None => None,
    }
}

/// The memory of the node, from the entries of meminfo.
pub fn memory_metrics(map: &TextMap<u64>) -> (r: Vec<Measurement>)
    ensures
        sensors::models(r@) == memory_measurements(map@),
{
    let mut out: Vec<Measurement> = Vec::new();
    assert(sensors::models(out@) =~= Seq::empty());
    common::push_gauge(
        &mut out,
        "host.memory.total_bytes",
        "By",
        "MemTotal from /proc/meminfo — usable RAM as the kernel sees it.",
        value_at(map, "MemTotal"),
        1,
    );
    common::push_gauge(
        &mut out,
        "host.memory.available_bytes",
        "By",
        "MemAvailable from /proc/meminfo — what userspace can actually allocate.",
        value_at(map, "MemAvailable"),
        1,
    );
    let swap: Option<(u64, u64)> = match (map.get("SwapTotal"), map.get("SwapFree")) {
        (Some(total), Some(free)) => Some((*total, *free)),
        _ => None,
    };
    let total: Option<u64> = match swap {
        Some((total, _)) => Some(total),
        None => None,
    };
    let used: Option<u64> = match swap {
        Some((total, free)) => Some(total.saturating_sub(free)),
        None => None,
    };
    common::push_gauge(
        &mut out,
        "host.memory.swap.total_bytes",
        "By",
        "SwapTotal from /proc/meminfo.",
        total,
        1,
    );
    common::push_gauge(&mut out, "host.memory.swap.used_bytes", "By", "SwapTotal - SwapFree.", used, 1);
    assert(sensors::models(out@) =~= memory_measurements(map@));
    out
}

// ---------------------------------------------------------------------
// Disks
// ---------------------------------------------------------------------

/// File systems that are neither virtual nor in memory.
pub open spec fn is_real_filesystem(name: Seq<char>) -> bool {
    name == "ext4"@ || name == "xfs"@ || name == "btrfs"@ || name == "zfs"@ || name == "f2fs"@ || name == "ext3"@
        || name == "ext2"@
}

fn real_filesystem(name: &str) -> (r: bool)
    ensures
        r == is_real_filesystem(name@),
{
    text::same(name, "ext4") || text::same(name, "xfs") || text::same(name, "btrfs") || text::same(name, "zfs")
        || text::same(name, "f2fs") || text::same(name, "ext3") || text::same(name, "ext2")
}

/// The index of the first field that is a dash, or the number of fields.
pub open spec fn dash_index(parts: Seq<Seq<char>>) -> int
    decreases parts.len(),
{
    if parts.len() == 0 || parts[0] == "-"@ {
        0
    } else {
        1 + dash_index(parts.drop_first())
    }
}

/// The mount point of a line of mountinfo whose file system, the field after
/// the first dash, is a real one.
pub open spec fn real_mount(line: Seq<char>) -> Option<Seq<char>> {
    let parts = scan::fields_of(line, CharClass::Space);
    let dash = dash_index(parts);
    if dash + 1 < parts.len() && is_real_filesystem(parts[dash + 1]) && parts.len() > 4 {
        Some(parts[4])
    } else {
        None
    }
}

/// The mount points of real file systems, each where it comes first.
pub open spec fn mounts_of(lines: Seq<Seq<char>>) -> Seq<Seq<char>>
    decreases lines.len(),
{
    if lines.len() == 0 {
        Seq::empty()
    } else {
        let head = mounts_of(lines.drop_last());
        match real_mount(lines.last()) {
            Some(m) => if head.contains(m) {
                head
            } else {
                head.push(m)
            },
            None => head,
        }
    }
}

fn find_dash(parts: &Vec<String>) -> (r: usize)
    ensures
        r <= parts@.len(),
        r == dash_index(text::texts(parts@)),
{
    let ghost all = text::texts(parts@);
    let mut i: usize = 0;
    proof {
        assert(all.skip(0) =~= all);
    }
    while i < parts.len()
        invariant
            i <= parts@.len(),
            all == text::texts(parts@),
            i + dash_index(all.skip(i as int)) == dash_index(all),
        decreases parts@.len() - i,
    {
        proof {
            assert(all.skip(i as int)[0] == parts@[i as int]@);
            assert(all.skip(i as int).drop_first() =~= all.skip(i + 1));
        }
        if text::same(parts[i].as_str(), "-") {
            return i;
        }
        i = i + 1;
    }
    assert(all.skip(i as int) =~= Seq::empty());
    i
}

fn parse_mount(line: &str) -> (r: Option<String>)
    ensures
        text::opt_text(r) == real_mount(line@),
{
    let parts = scan::fields(line, CharClass::Space);
    proof {
        assert(text::texts(parts@).len() == parts@.len());
        assert(forall|i: int| 0 <= i < parts@.len() ==> text::texts(parts@)[i] == #[trigger] parts@[i]@);
    }
    let dash = find_dash(&parts);
    if dash < parts.len() && dash + 1 < parts.len() && real_filesystem(parts[dash + 1].as_str()) && parts.len() > 4 {
        Some(parts[4].clone())
    } else {
        None
    }
}

fn holds_text(v: &Vec<String>, s: &str) -> (r: bool)
    ensures
        r == text::texts(v@).contains(s@),
{
    let mut i: usize = 0;
    while i < v.len()
        invariant
            i <= v@.len(),
            forall|k: int| 0 <= k < i ==> (#[trigger] v@[k])@ != s@,
        decreases v@.len() - i,
    {
        if text::same(v[i].as_str(), s) {
            assert(text::texts(v@)[i as int] == s@);
            return true;
        }
        i = i + 1;
    }
    proof {
        if text::texts(v@).contains(s@) {
            let k = choose|k: int| 0 <= k < text::texts(v@).len() && text::texts(v@)[k] == s@;
            assert(v@[k]@ == s@);
        }
    }
    false
}

/// The mount points of real file systems in the mountinfo file `content`,
/// each once.
pub fn parse_mountinfo(content: &str) -> (r: Vec<String>)
    ensures
        text::texts(r@) == mounts_of(scan::lines_of(content@)),
{
    let lines = scan::lines(content);
    let ghost all = scan::lines_of(content@);
    let mut out: Vec<String> = Vec::new();
    let mut i: usize = 0;
    assert(all.len() == lines@.len());
    assert(text::texts(out@) =~= Seq::empty());
    while i < lines.len()
        invariant
            i <= lines@.len(),
            all == text::texts(lines@),
            text::texts(out@) == mounts_of(all.take(i as int)),
        decreases lines@.len() - i,
    {
        proof {
            let t = all.take(i + 1);
            assert(t.drop_last() =~= all.take(i as int));
            assert(t.last() == lines@[i as int]@);
        }
        match parse_mount(lines[i].as_str()) {
            Some(m) => {
                if !holds_text(&out, m.as_str()) {
                    let ghost before = text::texts(out@);
                    let ghost k = m@;
                    out.push(m);
                    assert(text::texts(out@) =~= before.push(k));
                }
            },
            None => {},
        }
        i = i + 1;
    }
    assert(all.take(all.len() as int) =~= all);
    out
}

/// No mount point is listed twice.
pub proof fn law_mounts_once(lines: Seq<Seq<char>>)
    ensures
        mounts_of(lines).no_duplicates(),
    decreases lines.len(),
{
    if lines.len() > 0 {
        let head = mounts_of(lines.drop_last());
        law_mounts_once(lines.drop_last());
        match real_mount(lines.last()) {
            Some(m) => {
                if !head.contains(m) {
                    let t = head.push(m);
                    assert forall|i: int, j: int|
                        0 <= i < t.len() && 0 <= j < t.len() && i != j implies t[i] != t[j] by {
                        if i < head.len() {
                            assert(head.contains(head[i]));
                        }
                        if j < head.len() {
                            assert(head.contains(head[j]));
                        }
                    }
                }
            },
            None => {},
        }
    }
}

/// The block counts of a mounted file system.
pub struct DiskBlocks {
    /// The size of a block.
    pub block_size: u64,
    pub blocks: u64,
    /// The blocks that are free for anyone but root.
    pub available: u64,
}

/// The bytes of a file system: all of them, and those free for anyone.
pub fn disk_bytes(d: &DiskBlocks) -> (r: (u64, u64))
    ensures
        r.0 == capped(d.blocks * d.block_size),
        r.1 == capped(d.available * d.block_size),
{
    (times(d.blocks, d.block_size), times(d.available, d.block_size))
}

/// The size and the free part of one mounted file system.
pub open spec fn mount_measurements(mount: Seq<char>, d: Option<DiskBlocks>) -> Seq<MeasurementModel> {
    match d {
        Some(b) => seq![
            MeasurementModel {
                name: "host.disk.total_bytes"@,
                unit: "By"@,
                description: "Total bytes on a real (non-virtual) filesystem."@,
                value: Ratio { raw: capped(b.blocks * b.block_size), divisor: 1 },
                attrs: seq![("mount"@, mount)],
            },
            MeasurementModel {
                name: "host.disk.free_bytes"@,
                unit: "By"@,
                description: "Free bytes available to non-root on a real filesystem."@,
                value: Ratio { raw: capped(b.available * b.block_size), divisor: 1 },
                attrs: seq![("mount"@, mount)],
            },
        ],
        None => Seq::empty(),
    }
}

/// The sizes and free parts of mounted file systems.
pub open spec fn disk_measurements(mounts: Seq<(String, Option<DiskBlocks>)>) -> Seq<MeasurementModel>
    decreases mounts.len(),
{
    if mounts.len() == 0 {
        Seq::empty()
    } else {
        disk_measurements(mounts.drop_last()) + mount_measurements(mounts.last().0@, mounts.last().1)
    }
}

fn mount_attr(mount: &String) -> (r: Vec<(&'static str, String)>)
    ensures
        r@.map_values(|a: (&'static str, String)| (a.0@, a.1@)) == seq![("mount"@, mount@)],
{
    let mut attrs: Vec<(&'static str, String)> = Vec::new();
    attrs.push(("mount", mount.clone()));
    assert(attrs@.map_values(|a: (&'static str, String)| (a.0@, a.1@)) =~= seq![("mount"@, mount@)]);
    attrs
}

/// The disks of the node: mount points with their block counts, where the
/// file system could be asked.
pub fn disk_metrics(mounts: &Vec<(String, Option<DiskBlocks>)>) -> (r: Vec<Measurement>)
    ensures
        sensors::models(r@) == disk_measurements(mounts@),
{
    let mut out: Vec<Measurement> = Vec::new();
    assert(sensors::models(out@) =~= Seq::empty());
    let mut i: usize = 0;
    while i < mounts.len()
        invariant
            i <= mounts@.len(),
            sensors::models(out@) == disk_measurements(mounts@.take(i as int)),
        decreases mounts@.len() - i,
    {
        let ghost before = sensors::models(out@);
        proof {
            let t = mounts@.take(i + 1);
            assert(t.drop_last() =~= mounts@.take(i as int));
            assert(t.last() == mounts@[i as int]);
        }
        let ghost added = mount_measurements(mounts@[i as int].0@, mounts@[i as int].1);
        match &mounts[i].1 {
            Some(d) => {
                let (total, free) = disk_bytes(d);
                out.push(
                    Measurement {
                        name: "host.disk.total_bytes",
                        unit: "By",
                        description: "Total bytes on a real (non-virtual) filesystem.",
                        value: Ratio { raw: total, divisor: 1 },
                        attrs: mount_attr(&mounts[i].0),
                    },
                );
                out.push(
                    Measurement {
                        name: "host.disk.free_bytes",
                        unit: "By",
                        description: "Free bytes available to non-root on a real filesystem.",
                        value: Ratio { raw: free, divisor: 1 },
                        attrs: mount_attr(&mounts[i].0),
                    },
                );
                assert(sensors::models(out@) =~= before + added);
            },
            None => {
                assert(before + added =~= before);
            },
        }
        i = i + 1;
    }
    assert(mounts@.take(mounts@.len() as int) =~= mounts@);
    out
}

/// The memory and the disks of the node, from the contents of meminfo and
/// from its mounted file systems.
pub fn snapshot(meminfo: Option<&str>, mounts: &Vec<(String, Option<DiskBlocks>)>) -> (r: Vec<Measurement>)
    ensures
        sensors::models(r@) == memory_measurements(
            match meminfo {
                Some(s) => meminfo_of(scan::lines_of(s@)),
                None => Map::empty(),
            },
        ) + disk_measurements(mounts@),
{
    let map: TextMap<u64> = match meminfo {
        Some(s) => parse_meminfo_str(s),
        None => TextMap::new(),
    };
    let mut out = memory_metrics(&map);
    let mut disks = disk_metrics(mounts);
    let ghost a = sensors::models(out@);
    let ghost b = sensors::models(disks@);
    out.append(&mut disks);
    assert(sensors::models(out@) =~= a + b);
    out
}

} // verus!
