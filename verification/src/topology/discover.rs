//! Grouping a node's accelerators into fabric domains. xGMI links are read
//! from sysfs; NVLink is not shown there, so other cards stand by themselves.

use super::{FabricDomain, FabricKind, NodeTopology};
use crate::config;
use crate::config::Resolved;
use crate::graph;
use crate::hashing;
use crate::number;
use crate::scan;
use crate::scan::CharClass;
use crate::sensors::common::Sysfs;
use crate::sensors::{Accelerator, AcceleratorId, IdModel, Vendor};
use crate::sorting;
use crate::text;
use crate::textmap::TextMap;
use crate::topology;
use crate::topology::lldp::LldpNeighbor;
use std::collections::hash_map::DefaultHasher;
use std::hash::Hasher;
use vstd::prelude::*;
use vstd::std_specs::hash::DefaultHasherAdditionalSpecFns;

verus! {

// ---------------------------------------------------------------------
// Domain identifiers
// ---------------------------------------------------------------------

/// The PCI addresses of identities.
pub open spec fn addrs(members: Seq<IdModel>) -> Seq<Seq<char>> {
    members.map_values(|m: IdModel| m.pci_addr)
}

/// The identifier of a domain: the low 32 bits of the hash of the sorted
/// addresses.
pub open spec fn domain_id_of(members: Seq<IdModel>) -> Seq<char> {
    "fab-"@ + number::hex(
        (DefaultHasher::spec_finish(hashing::hashed(sorting::sorted_texts(addrs(members)))) % 0x1_0000_0000) as nat,
    )
}

/// The identifier of the domain with the given members.
pub fn stable_domain_id(members: &[AcceleratorId]) -> (r: String)
    ensures
        r@ == domain_id_of(topology::ids(members@)),
{
    let mut addresses: Vec<String> = Vec::new();
    let mut i: usize = 0;
    while i < members.len()
        invariant
            i <= members@.len(),
            text::texts(addresses@) == addrs(topology::ids(members@)).take(i as int),
        decreases members@.len() - i,
    {
        let ghost before = addresses@;
        addresses.push(members[i].pci_addr.clone());
        i = i + 1;
        assert(text::texts(addresses@) =~= text::texts(before).push(members@[i - 1].pci_addr@));
        assert(text::texts(addresses@) =~= addrs(topology::ids(members@)).take(i as int));
    }
    assert(addrs(topology::ids(members@)).take(i as int) =~= addrs(topology::ids(members@)));
    let sorted = sorting::sort_texts(addresses);
    let mut hasher = DefaultHasher::new();
    let mut k: usize = 0;
    while k < sorted.len()
        invariant
            k <= sorted@.len(),
            hasher@ == hashing::hashed(text::texts(sorted@).take(k as int)),
        decreases sorted@.len() - k,
    {
        hashing::hash_text(&mut hasher, sorted[k].as_str());
        proof {
            let t = text::texts(sorted@).take(k + 1);
            assert(t.drop_last() =~= text::texts(sorted@).take(k as int));
            assert(t.last() == sorted@[k as int]@);
        }
        k = k + 1;
    }
    assert(text::texts(sorted@).take(k as int) =~= text::texts(sorted@));
    let low: u64 = hasher.finish() % 0x1_0000_0000;
    text::join2("fab-", number::hex_padded(low, 1).as_str())
}

/// The identifier of a domain depends on the addresses of its members alone,
/// not on their order.
pub proof fn law_domain_id_ignores_order(a: Seq<IdModel>, b: Seq<IdModel>)
    requires
        addrs(a).to_multiset() == addrs(b).to_multiset(),
    ensures
        domain_id_of(a) == domain_id_of(b),
{
    sorting::lemma_sorted_texts_unique(addrs(a), addrs(b));
}

// ---------------------------------------------------------------------
// xGMI peers
// ---------------------------------------------------------------------

/// A text with a colon in it.
pub open spec fn has_colon(s: Seq<char>) -> bool {
    exists|i: int| 0 <= i < s.len() && CharClass::One(':').has(#[trigger] s[i])
}

/// The PCI addresses in a file: its fields with a colon in them.
pub open spec fn peers_in(c: Option<Seq<char>>) -> Seq<Seq<char>> {
    match c {
        Some(s) => scan::fields_of(s, CharClass::AsciiSpace).filter(|t: Seq<char>| has_colon(t)),
        None => Seq::empty(),
    }
}

/// The peers of a device, in the first of the files that kernels keep them
/// in.
pub open spec fn xgmi_peers_of(fs: Sysfs, dir: Seq<char>) -> Seq<Seq<char>> {
    let a = peers_in(fs.file(dir, "xgmi_peer_links"@));
    let b = peers_in(fs.file(dir, "xgmi_phy_id"@));
    let c = peers_in(fs.file(dir, "xgmi_link_status"@));
    if a.len() > 0 {
        a
    } else if b.len() > 0 {
        b
    } else {
        c
    }
}

fn file_peers(contents: Option<&str>) -> (r: Vec<String>)
    ensures
        text::texts(r@) == peers_in(text::opt_str(contents)),
{
    let mut out: Vec<String> = Vec::new();
    assert(text::texts(out@) =~= Seq::empty());
    match contents {
        Some(s) => {
            let fields = scan::fields(s, CharClass::AsciiSpace);
            let ghost all = scan::fields_of(s@, CharClass::AsciiSpace);
            let ghost keep = |t: Seq<char>| has_colon(t);
            let mut i: usize = 0;
            assert(all.take(0).filter(keep) =~= Seq::empty()) by {
                reveal(Seq::filter);
            }
            assert(all.len() == fields@.len());
            while i < fields.len()
                invariant
                    all == text::texts(fields@),
                    keep == (|t: Seq<char>| has_colon(t)),
                    i <= fields@.len(),
                    text::texts(out@) == all.take(i as int).filter(keep),
                decreases fields@.len() - i,
            {
                let ghost before = out@;
                proof {
                    assert(all[i as int] == fields@[i as int]@);
                    assert(all.take(i + 1) =~= all.take(i as int).push(all[i as int]));
                    sorting::lemma_filter_push(all.take(i as int), all[i as int], keep);
                }
                if scan::has_char(fields[i].as_str(), CharClass::One(':')) {
                    out.push(fields[i].clone());
                    assert(text::texts(out@) =~= text::texts(before).push(all[i as int]));
                }
                i = i + 1;
            }
            assert(all.take(all.len() as int) =~= all);
        },
        None => {},
    }
    out
}

/// The peers of the device in `device_dir`.
pub fn read_xgmi_peers(fs: &Sysfs, device_dir: &str) -> (r: Vec<String>)
    ensures
        text::texts(r@) == xgmi_peers_of(*fs, device_dir@),
{
    let a = file_peers(fs.read(device_dir, "xgmi_peer_links"));
    assert(text::texts(a@).len() == a@.len());
    if a.len() > 0 {
        return a;
    }
    let b = file_peers(fs.read(device_dir, "xgmi_phy_id"));
    assert(text::texts(b@).len() == b@.len());
    if b.len() > 0 {
        return b;
    }
    file_peers(fs.read(device_dir, "xgmi_link_status"))
}

/// The device has a count of xGMI links.
pub open spec fn counts_links(fs: Sysfs, dir: Seq<char>) -> bool {
    fs.devices@.contains_key(dir) && fs.devices@[dir].xgmi_link_count
}

/// The first AMD accelerator at a PCI address.
pub open spec fn amd_at(accels: Seq<Accelerator>, addr: Seq<char>) -> Option<IdModel>
    decreases accels.len(),
{
    if accels.len() == 0 {
        None
    } else if accels[0].id.vendor == Vendor::Amd && accels[0].id.pci_addr@ == addr {
        Some(accels[0].id@)
    } else {
        amd_at(accels.drop_first(), addr)
    }
}

/// The accelerator with index `i` names `y` as its peer with index `k`.
pub open spec fn names_peer(fs: Sysfs, accels: Seq<Accelerator>, i: int, k: int, y: IdModel) -> bool {
    let dir = accels[i].device_dir@;
    &&& 0 <= i < accels.len()
    &&& accels[i].id.vendor == Vendor::Amd
    &&& counts_links(fs, dir)
    &&& 0 <= k < xgmi_peers_of(fs, dir).len()
    &&& amd_at(accels, xgmi_peers_of(fs, dir)[k]) == Some(y)
}

/// An accelerator `x` names `y` as a peer.
pub open spec fn points_to(fs: Sysfs, accels: Seq<Accelerator>, x: IdModel, y: IdModel) -> bool {
    exists|i: int, k: int| accels[i].id@ == x && #[trigger] names_peer(fs, accels, i, k, y)
}

/// One of two accelerators names the other as a peer.
pub open spec fn linked(fs: Sysfs, accels: Seq<Accelerator>) -> spec_fn(IdModel, IdModel) -> bool {
    |x: IdModel, y: IdModel| points_to(fs, accels, x, y) || points_to(fs, accels, y, x)
}

/// Identities by their addresses.
pub open spec fn addr_before() -> spec_fn(IdModel, IdModel) -> bool {
    |a: IdModel, b: IdModel| text::text_lt(a.pci_addr, b.pci_addr)
}

/// The groups are the connected components of the accelerators that have
/// xGMI links, each sorted by address.
pub open spec fn are_xgmi_groups(fs: Sysfs, accels: Seq<Accelerator>, groups: Seq<Seq<IdModel>>) -> bool {
    &&& graph::are_components(linked(fs, accels), groups)
    &&& forall|g: int| 0 <= g < groups.len() ==> sorting::in_order(#[trigger] groups[g], addr_before())
}

/// The members of each group.
pub open spec fn group_ids(groups: Seq<(Vec<AcceleratorId>, FabricKind)>) -> Seq<Seq<IdModel>> {
    groups.map_values(|g: (Vec<AcceleratorId>, FabricKind)| topology::ids(g.0@))
}

fn find_amd(accels: &Vec<Accelerator>, addr: &str) -> (r: Option<usize>)
    ensures
        match r {
            Some(i) => i < accels@.len() && accels@[i as int].id.vendor == Vendor::Amd && amd_at(accels@, addr@)
                == Some(accels@[i as int].id@),
            None => amd_at(accels@, addr@) is None,
        },
{
    let mut i: usize = 0;
    assert(accels@.skip(0) =~= accels@);
    while i < accels.len()
        invariant
            i <= accels@.len(),
            amd_at(accels@.skip(i as int), addr@) == amd_at(accels@, addr@),
        decreases accels@.len() - i,
    {
        proof {
            assert(accels@.skip(i as int)[0] == accels@[i as int]);
            assert(accels@.skip(i as int).drop_first() =~= accels@.skip(i + 1));
        }
        if accels[i].id.vendor == Vendor::Amd && text::same(accels[i].id.pci_addr.as_str(), addr) {
            return Some(i);
        }
        i = i + 1;
    }
    None
}

fn index_of_id(nodes: &Vec<AcceleratorId>, id: &AcceleratorId) -> (r: Option<usize>)
    ensures
        match r {
            Some(i) => i < nodes@.len() && nodes@[i as int]@ == id@,
            None => !topology::ids(nodes@).contains(id@),
        },
{
    let mut i: usize = 0;
    while i < nodes.len()
        invariant
            i <= nodes@.len(),
            forall|k: int| 0 <= k < i ==> (#[trigger] nodes@[k])@ != id@,
        decreases nodes@.len() - i,
    {
        if nodes[i].same(id) {
            return Some(i);
        }
        i = i + 1;
    }
    None
}

/// The identities of the AMD accelerators, each once.
fn amd_nodes(accels: &Vec<Accelerator>) -> (r: Vec<AcceleratorId>)
    ensures
        topology::ids(r@).no_duplicates(),
        forall|i: int|
            0 <= i < accels@.len() && (#[trigger] accels@[i]).id.vendor == Vendor::Amd ==> topology::ids(
                r@,
            ).contains(accels@[i].id@),
{
    let mut nodes: Vec<AcceleratorId> = Vec::new();
    let mut i: usize = 0;
    while i < accels.len()
        invariant
            i <= accels@.len(),
            topology::ids(nodes@).no_duplicates(),
            forall|k: int|
                0 <= k < i && (#[trigger] accels@[k]).id.vendor == Vendor::Amd ==> topology::ids(nodes@).contains(
                    accels@[k].id@,
                ),
        decreases accels@.len() - i,
    {
        if accels[i].id.vendor == Vendor::Amd {
            let ghost before = topology::ids(nodes@);
            match index_of_id(&nodes, &accels[i].id) {
                Some(k) => {
                    assert(topology::ids(nodes@)[k as int] == accels@[i as int].id@);
                },
                None => {
                    nodes.push(accels[i].id.clone());
                    proof {
                        let after = topology::ids(nodes@);
                        assert(after =~= before.push(accels@[i as int].id@));
                        assert(after[before.len() as int] == accels@[i as int].id@);
                        assert forall|x: IdModel| before.contains(x) implies after.contains(x) by {
                            let k = choose|k: int| 0 <= k < before.len() && before[k] == x;
                            assert(after[k] == x);
                        }
                    }
                },
            }
        }
        i = i + 1;
    }
    nodes
}

/// Makes two indices neighbours of each other.
fn add_link(adj: &mut Vec<Vec<usize>>, u: usize, v: usize)
    requires
        u < old(adj)@.len(),
        v < old(adj)@.len(),
    ensures
        final(adj)@.len() == old(adj)@.len(),
        forall|i: int, x: usize|
            0 <= i < old(adj)@.len() ==> (#[trigger] final(adj)@[i]@.contains(x) <==> old(adj)@[i]@.contains(x) || (i
                == u && x == v) || (i == v && x == u)),
{
    let ghost before = adj@;
    adj[u].push(v);
    let ghost mid = adj@;
    adj[v].push(u);
    proof {
        lemma_push_contains(before[u as int]@, v);
        lemma_push_contains(mid[v as int]@, u);
    }
}

proof fn lemma_push_contains(s: Seq<usize>, v: usize)
    ensures
        forall|x: usize| #[trigger] s.push(v).contains(x) <==> s.contains(x) || x == v,
{
    assert forall|x: usize| #[trigger] s.push(v).contains(x) <==> s.contains(x) || x == v by {
        let t = s.push(v);
        if s.contains(x) {
            let i = choose|i: int| 0 <= i < s.len() && s[i] == x;
            assert(t[i] == x);
        }
        if x == v {
            assert(t[s.len() as int] == x);
        }
        if t.contains(x) && x != v {
            let i = choose|i: int| 0 <= i < t.len() && t[i] == x;
            assert(s[i] == x);
        }
    }
}

/// Who is linked to whom, by index in `nodes`.
fn xgmi_adjacency(fs: &Sysfs, accels: &Vec<Accelerator>, nodes: &Vec<AcceleratorId>) -> (adj: Vec<Vec<usize>>)
    requires
        topology::ids(nodes@).no_duplicates(),
        forall|i: int|
            0 <= i < accels@.len() && (#[trigger] accels@[i]).id.vendor == Vendor::Amd ==> topology::ids(
                nodes@,
            ).contains(accels@[i].id@),
    ensures
        adj@.len() == nodes@.len(),
        graph::is_graph(adj@),
        forall|u: int, v: int| #[trigger]
            graph::links(adj@)(u, v) <==> 0 <= u < nodes@.len() && 0 <= v < nodes@.len() && linked(*fs, accels@)(
                nodes@[u]@,
                nodes@[v]@,
            ),
{
    let n: usize = nodes.len();
    let mut adj: Vec<Vec<usize>> = Vec::new();
    let mut a: usize = 0;
    while a < n
        invariant
            a <= n,
            adj@.len() == a,
            forall|i: int| 0 <= i < a ==> (#[trigger] adj@[i])@.len() == 0,
        decreases n - a,
    {
        adj.push(Vec::new());
        a = a + 1;
    }
    // The directed pairs of indices that were added so far.
    let ghost mut done: Set<(int, int)> = Set::empty();
    let mut i: usize = 0;
    while i < accels.len()
        invariant
            i <= accels@.len(),
            n == nodes@.len(),
            adj@.len() == n,
            topology::ids(nodes@).no_duplicates(),
            forall|i: int|
                0 <= i < accels@.len() && (#[trigger] accels@[i]).id.vendor == Vendor::Amd ==> topology::ids(
                    nodes@,
                ).contains(accels@[i].id@),
            forall|u: int, x: usize|
                0 <= u < n ==> (#[trigger] adj@[u]@.contains(x) <==> done.contains((u, x as int)) || done.contains(
                    (x as int, u),
                )),
            forall|u: int, v: int| #[trigger]
                done.contains((u, v)) ==> 0 <= u < n && 0 <= v < n && points_to(
                    *fs,
                    accels@,
                    nodes@[u]@,
                    nodes@[v]@,
                ),
            forall|j: int, k: int, y: IdModel, u: int, v: int|
                0 <= j < i && #[trigger] names_peer(*fs, accels@, j, k, y) && 0 <= u < n && 0 <= v < n && (
                #[trigger] nodes@[u])@ == accels@[j].id@ && (#[trigger] nodes@[v])@ == y ==> done.contains((u, v)),
        decreases accels@.len() - i,
    {
        let dir = accels[i].device_dir.as_str();
        let counted = match fs.devices.get(dir) {
            Some(d) => d.xgmi_link_count,
            None => false,
        };
        assert(counted == counts_links(*fs, dir@));
        if accels[i].id.vendor == Vendor::Amd && counted {
            let peers = read_xgmi_peers(fs, dir);
            let ghost all = xgmi_peers_of(*fs, dir@);
            assert(all.len() == peers@.len());
            match index_of_id(nodes, &accels[i].id) {
                None => {
                    assert(topology::ids(nodes@).contains(accels@[i as int].id@));
                },
                Some(u) => {
                    let mut k: usize = 0;
                    while k < peers.len()
                        invariant
                            i < accels@.len(),
                            n == nodes@.len(),
                            adj@.len() == n,
                            u < n,
                            nodes@[u as int]@ == accels@[i as int].id@,
                            accels@[i as int].id.vendor == Vendor::Amd,
                            dir@ == accels@[i as int].device_dir@,
                            counts_links(*fs, dir@),
                            all == xgmi_peers_of(*fs, dir@),
                            all == text::texts(peers@),
                            k <= peers@.len(),
                            topology::ids(nodes@).no_duplicates(),
                            forall|i: int|
                                0 <= i < accels@.len() && (#[trigger] accels@[i]).id.vendor == Vendor::Amd
                                    ==> topology::ids(nodes@).contains(accels@[i].id@),
                            forall|u: int, x: usize|
                                0 <= u < n ==> (#[trigger] adj@[u]@.contains(x) <==> done.contains((u, x as int))
                                    || done.contains((x as int, u))),
                            forall|u: int, v: int| #[trigger]
                                done.contains((u, v)) ==> 0 <= u < n && 0 <= v < n && points_to(
                                    *fs,
                                    accels@,
                                    nodes@[u]@,
                                    nodes@[v]@,
                                ),
                            forall|j: int, k: int, y: IdModel, u: int, v: int|
                                0 <= j < i && #[trigger] names_peer(*fs, accels@, j, k, y) && 0 <= u < n && 0 <= v
                                    < n && (#[trigger] nodes@[u])@ == accels@[j].id@ && (#[trigger] nodes@[v])@ == y
                                    ==> done.contains((u, v)),
                            forall|m: int, y: IdModel, v: int|
                                0 <= m < k && #[trigger] names_peer(*fs, accels@, i as int, m, y) && 0 <= v < n && (
                                #[trigger] nodes@[v])@ == y ==> done.contains((u as int, v)),
                        decreases peers@.len() - k,
                    {
                        assert(all[k as int] == peers@[k as int]@);
                        let ghost before = done;
                        match find_amd(accels, peers[k].as_str()) {
                            None => {},
                            Some(p) => {
                                proof {
                                    assert(names_peer(*fs, accels@, i as int, k as int, accels@[p as int].id@));
                                    assert(topology::ids(nodes@).contains(accels@[p as int].id@));
                                }
                                match index_of_id(nodes, &accels[p].id) {
                                    None => {},
                                    Some(v) => {
                                        let ghost adj_before = adj@;
                                        add_link(&mut adj, u, v);
                                        proof {
                                            done = before.insert((u as int, v as int));
                                            assert(points_to(
                                                *fs,
                                                accels@,
                                                nodes@[u as int]@,
                                                nodes@[v as int]@,
                                            ));
                                            assert forall|m: int, y: IdModel, w: int|
                                                0 <= m < k + 1 && #[trigger] names_peer(
                                                    *fs,
                                                    accels@,
                                                    i as int,
                                                    m,
                                                    y,
                                                ) && 0 <= w < n && (#[trigger] nodes@[w])@ == y implies done.contains(
                                                (u as int, w),
                                            ) by {
                                                if m == k {
                                                    assert(topology::ids(nodes@)[w] == topology::ids(
                                                        nodes@,
                                                    )[v as int]);
                                                    assert(w == v);
                                                }
                                            }
                                        }
                                    },
                                }
                            },
                        }
                        k = k + 1;
                    }
                    proof {
                        assert forall|j: int, k: int, y: IdModel, a: int, b: int|
                            0 <= j < i + 1 && #[trigger] names_peer(*fs, accels@, j, k, y) && 0 <= a < n && 0 <= b < n
                                && (#[trigger] nodes@[a])@ == accels@[j].id@ && (#[trigger] nodes@[b])@
                                == y implies done.contains((a, b)) by {
                            if j == i {
                                assert(topology::ids(nodes@)[a] == topology::ids(nodes@)[u as int]);
                                assert(a == u);
                            }
                        }
                    }
                },
            }
        }
        i = i + 1;
    }
    proof {
        let rel = linked(*fs, accels@);
        assert forall|u: int, v: int| 0 <= u < n && 0 <= v < n implies (#[trigger] done.contains((u, v))
            <==> points_to(*fs, accels@, nodes@[u]@, nodes@[v]@)) by {
            if points_to(*fs, accels@, nodes@[u]@, nodes@[v]@) {
                let (j, k) = choose|j: int, k: int|
                    accels@[j].id@ == nodes@[u]@ && #[trigger] names_peer(*fs, accels@, j, k, nodes@[v]@);
                assert(names_peer(*fs, accels@, j, k, nodes@[v]@));
            }
        }
        assert forall|u: int, v: int| #[trigger] graph::links(adj@)(u, v) <==> 0 <= u < n && 0 <= v < n && rel(
            nodes@[u]@,
            nodes@[v]@,
        ) by {
            if 0 <= u < n && 0 <= v < n {
                assert(adj@[u]@.contains(v as usize) <==> done.contains((u, v)) || done.contains((v, u)));
            }
        }
        assert forall|i: int, k: int| 0 <= i < adj@.len() && 0 <= k < adj@[i]@.len() implies #[trigger] adj@[i]@[k]
            < adj@.len() by {
            let x = adj@[i]@[k];
            assert(adj@[i]@.contains(x));
        }
    }
    adj
}

// ---------------------------------------------------------------------
// Groups
// ---------------------------------------------------------------------

fn addr_less(a: &AcceleratorId, b: &AcceleratorId) -> (r: bool)
    ensures
        r == text::text_lt(a.pci_addr@, b.pci_addr@),
{
    text::less(a.pci_addr.as_str(), b.pci_addr.as_str())
}

proof fn lemma_addr_ranking()
    ensures
        sorting::is_ranking(addr_before()),
{
    let before = addr_before();
    let by_text = sorting::text_before();
    sorting::lemma_text_ranking();
    assert forall|a: IdModel, b: IdModel| #[trigger] before(a, b) implies !before(b, a) by {
        assert(by_text(a.pci_addr, b.pci_addr));
    }
    assert forall|a: IdModel, b: IdModel, c: IdModel| #[trigger]
        before(a, c) && !before(b, c) implies #[trigger] before(a, b) by {
        assert(by_text(a.pci_addr, c.pci_addr) && !by_text(b.pci_addr, c.pci_addr));
        assert(by_text(a.pci_addr, b.pci_addr));
    }
}

/// The identities at the given indices, sorted by address.
fn sorted_group(nodes: &Vec<AcceleratorId>, group: &Vec<usize>) -> (r: Vec<AcceleratorId>)
    requires
        topology::ids(nodes@).no_duplicates(),
        group@.no_duplicates(),
        forall|k: int| 0 <= k < group@.len() ==> #[trigger] group@[k] < nodes@.len(),
    ensures
        topology::ids(r@).len() == group@.len(),
        topology::ids(r@).no_duplicates(),
        sorting::in_order(topology::ids(r@), addr_before()),
        forall|k: int| 0 <= k < group@.len() ==> topology::ids(r@).contains((nodes@[#[trigger] group@[k] as int])@),
        forall|x: IdModel| #[trigger]
            topology::ids(r@).contains(x) ==> exists|k: int|
                0 <= k < group@.len() && nodes@[#[trigger] group@[k] as int]@ == x,
{
    let mut members: Vec<AcceleratorId> = Vec::new();
    let mut i: usize = 0;
    while i < group.len()
        invariant
            i <= group@.len(),
            members@.len() == i,
            forall|k: int| 0 <= k < group@.len() ==> #[trigger] group@[k] < nodes@.len(),
            forall|k: int| 0 <= k < i ==> #[trigger] members@[k] == nodes@[group@[k] as int],
        decreases group@.len() - i,
    {
        members.push(nodes[group[i]].clone());
        i = i + 1;
    }
    let ghost before = |a: AcceleratorId, b: AcceleratorId| text::text_lt(a.pci_addr@, b.pci_addr@);
    let ghost plain = topology::ids(members@);
    let r = sorting::arrange(members, addr_less, Ghost(before));
    proof {
        sorting::lemma_arranged_map(members@, |id: AcceleratorId| id@, before, addr_before());
        assert(topology::ids(r@) == sorting::arranged(plain, addr_before()));
        assert forall|a: int, b: int| 0 <= a < plain.len() && 0 <= b < plain.len() && a != b implies plain[a]
            != plain[b] by {
            assert(plain[a] == topology::ids(nodes@)[group@[a] as int]);
            assert(plain[b] == topology::ids(nodes@)[group@[b] as int]);
            assert(group@[a] != group@[b]);
        }
        lemma_addr_ranking();
        sorting::lemma_arranged_no_duplicates(plain, addr_before());
        sorting::lemma_arranged_in_order(plain, addr_before());
        sorting::lemma_arranged_same_elements(plain, addr_before());
        assert forall|k: int| 0 <= k < group@.len() implies topology::ids(r@).contains(
            (nodes@[#[trigger] group@[k] as int])@,
        ) by {
            sorting::lemma_arranged_contains(plain, addr_before(), plain[k]);
            assert(plain.contains(plain[k]));
        }
        assert forall|x: IdModel| #[trigger] topology::ids(r@).contains(x) implies exists|k: int|
            0 <= k < group@.len() && nodes@[#[trigger] group@[k] as int]@ == x by {
            sorting::lemma_arranged_contains(plain, addr_before(), x);
            let k = choose|k: int| 0 <= k < plain.len() && plain[k] == x;
            assert(nodes@[group@[k] as int]@ == x);
        }
    }
    r
}

/// The groups of AMD accelerators that xGMI links connect. The order of the
/// groups is left open.
pub fn build_amd_xgmi_groups(fs: &Sysfs, accels: &Vec<Accelerator>) -> (r: Vec<(Vec<AcceleratorId>, FabricKind)>)
    ensures
        are_xgmi_groups(*fs, accels@, group_ids(r@)),
        forall|g: int| 0 <= g < r@.len() ==> (#[trigger] r@[g]).1 == FabricKind::XGmi,
{
    let nodes = amd_nodes(accels);
    let adj = xgmi_adjacency(fs, accels, &nodes);
    let groups = graph::components(&adj);
    let ghost gs = graph::int_groups(groups@);
    let ghost rel = linked(*fs, accels@);
    let ghost all = topology::ids(nodes@);
    let mut out: Vec<(Vec<AcceleratorId>, FabricKind)> = Vec::new();
    let mut g: usize = 0;
    while g < groups.len()
        invariant
            g <= groups@.len(),
            out@.len() == g,
            adj@.len() == nodes@.len(),
            gs == graph::int_groups(groups@),
            graph::are_components(graph::links(adj@), gs),
            topology::ids(nodes@).no_duplicates(),
            all == topology::ids(nodes@),
            forall|h: int, k: int| 0 <= h < groups@.len() && 0 <= k < groups@[h]@.len() ==> #[trigger] groups@[h]@[k]
                < adj@.len(),
            forall|h: int| 0 <= h < g ==> (#[trigger] out@[h]).1 == FabricKind::XGmi,
            forall|h: int|
                0 <= h < g ==> topology::ids((#[trigger] out@[h]).0@).len() > 0 && topology::ids(
                    out@[h].0@,
                ).no_duplicates() && sorting::in_order(topology::ids(out@[h].0@), addr_before()),
            forall|h: int, i: int|
                0 <= h < g && #[trigger] gs[h].contains(i) ==> 0 <= i < all.len() && topology::ids(
                    out@[h].0@,
                ).contains(all[i]),
            forall|h: int, x: IdModel|
                0 <= h < g && #[trigger] topology::ids(out@[h].0@).contains(x) ==> exists|i: int|
                    0 <= i < all.len() && #[trigger] gs[h].contains(i) && all[i] == x,
        decreases groups@.len() - g,
    {
        let ghost before = out@;
        proof {
            assert(gs[g as int].len() > 0 && gs[g as int].no_duplicates());
            let s = groups@[g as int]@;
            assert forall|a: int, b: int| 0 <= a < s.len() && 0 <= b < s.len() && a != b implies s[a] != s[b] by {
                assert(gs[g as int][a] != gs[g as int][b]);
            }
        }
        let members = sorted_group(&nodes, &groups[g]);
        let ghost ms = topology::ids(members@);
        proof {
            let s = groups@[g as int]@;
            assert forall|i: int| #[trigger] gs[g as int].contains(i) implies 0 <= i < all.len() && ms.contains(
                all[i],
            ) by {
                let k = choose|k: int| 0 <= k < gs[g as int].len() && gs[g as int][k] == i;
                assert(s[k] == i);
                assert(ms.contains(nodes@[s[k] as int]@));
            }
            assert forall|x: IdModel| #[trigger] ms.contains(x) implies exists|i: int|
                0 <= i < all.len() && #[trigger] gs[g as int].contains(i) && all[i] == x by {
                let k = choose|k: int| 0 <= k < s.len() && nodes@[#[trigger] s[k] as int]@ == x;
                assert(gs[g as int][k] == s[k] as int);
                assert(gs[g as int].contains(s[k] as int));
                assert(all[s[k] as int] == x);
            }
        }
        out.push((members, FabricKind::XGmi));
        proof {
            assert(topology::ids(out@[g as int].0@) == ms);
            assert forall|h: int, x: IdModel|
                0 <= h < g + 1 && #[trigger] topology::ids(out@[h].0@).contains(x) implies exists|i: int|
                0 <= i < all.len() && #[trigger] gs[h].contains(i) && all[i] == x by {
                if h < g {
                    assert(topology::ids(before[h].0@).contains(x));
                } else {
                    assert(ms.contains(x));
                }
            }
        }
        g = g + 1;
    }
    proof {
        let ids = group_ids(out@);
        let by_index = graph::links(adj@);
        assert forall|h: int| 0 <= h < ids.len() implies #[trigger] ids[h] == topology::ids(out@[h].0@) by {}
        assert forall|x: IdModel, y: IdModel| #[trigger] rel(x, y) implies all.contains(x) && all.contains(y) by {
            if points_to(*fs, accels@, x, y) {
                lemma_points_within(*fs, accels@, nodes@, x, y);
            } else {
                lemma_points_within(*fs, accels@, nodes@, y, x);
            }
        }
        assert forall|i: int, j: int| #[trigger] by_index(i, j) <==> 0 <= i < all.len() && 0 <= j < all.len() && rel(
            all[i],
            all[j],
        ) by {
            if 0 <= i < all.len() && 0 <= j < all.len() {
                assert(all[i] == nodes@[i]@ && all[j] == nodes@[j]@);
            }
        }
        assert forall|h: int, i: int| 0 <= h < ids.len() && #[trigger] gs[h].contains(i) implies 0 <= i < all.len()
            && ids[h].contains(all[i]) by {
            assert(topology::ids(out@[h].0@).contains(all[i]));
        }
        assert forall|h: int, x: IdModel| 0 <= h < ids.len() && #[trigger] ids[h].contains(x) implies exists|i: int|
            0 <= i < all.len() && #[trigger] gs[h].contains(i) && all[i] == x by {
            assert(topology::ids(out@[h].0@).contains(x));
        }
        graph::lemma_components_image(by_index, gs, rel, ids, all);
    }
    out
}

proof fn lemma_points_within(
    fs: Sysfs,
    accels: Seq<Accelerator>,
    nodes: Seq<AcceleratorId>,
    x: IdModel,
    y: IdModel,
)
    requires
        points_to(fs, accels, x, y),
        forall|i: int|
            0 <= i < accels.len() && (#[trigger] accels[i]).id.vendor == Vendor::Amd ==> topology::ids(
                nodes,
            ).contains(accels[i].id@),
    ensures
        topology::ids(nodes).contains(x),
        topology::ids(nodes).contains(y),
{
    let (i, k) = choose|i: int, k: int| accels[i].id@ == x && #[trigger] names_peer(fs, accels, i, k, y);
    lemma_amd_at(accels, xgmi_peers_of(fs, accels[i].device_dir@)[k], y);
    let j = choose|j: int| 0 <= j < accels.len() && (#[trigger] accels[j]).id.vendor == Vendor::Amd && accels[j].id@
        == y;
    assert(topology::ids(nodes).contains(accels[j].id@));
}

/// What is found at an address is an AMD accelerator.
pub proof fn lemma_amd_at(accels: Seq<Accelerator>, addr: Seq<char>, y: IdModel)
    requires
        amd_at(accels, addr) == Some(y),
    ensures
        exists|j: int|
            0 <= j < accels.len() && (#[trigger] accels[j]).id.vendor == Vendor::Amd && accels[j].id@ == y,
    decreases accels.len(),
{
    if accels[0].id.vendor == Vendor::Amd && accels[0].id.pci_addr@ == addr {
        assert(accels[0].id@ == y);
    } else {
        let rest = accels.drop_first();
        lemma_amd_at(rest, addr, y);
        let j = choose|j: int|
            0 <= j < rest.len() && (#[trigger] rest[j]).id.vendor == Vendor::Amd && rest[j].id@ == y;
        assert(accels[j + 1] == rest[j]);
    }
}

// ---------------------------------------------------------------------
// Domains
// ---------------------------------------------------------------------

/// The domain of the group that an accelerator is in.
pub open spec fn xgmi_domain(groups: Seq<Seq<IdModel>>, x: IdModel) -> Option<Seq<char>> {
    if exists|g: int| 0 <= g < groups.len() && #[trigger] groups[g].contains(x) {
        Some(
            domain_id_of(
                groups[choose|g: int| 0 <= g < groups.len() && #[trigger] groups[g].contains(x)],
            ),
        )
    } else {
        None
    }
}

/// No accelerator before the one with index `i` has its identity.
pub open spec fn is_first_of_id(accels: Seq<Accelerator>, i: int) -> bool {
    forall|j: int| 0 <= j < i ==> (#[trigger] accels[j]).id@ != accels[i].id@
}

/// The domain that an accelerator has by the groups, or had before.
pub open spec fn grouped_domain(
    groups: Seq<Seq<IdModel>>,
    accels: Seq<Accelerator>,
    i: int,
) -> Option<Seq<char>> {
    if is_first_of_id(accels, i) && xgmi_domain(groups, accels[i].id@) is Some {
        xgmi_domain(groups, accels[i].id@)
    } else {
        text::opt_text(accels[i].fabric_domain)
    }
}

/// The domain of an accelerator: that of its group, or one of its own.
pub open spec fn fabric_of(groups: Seq<Seq<IdModel>>, accels: Seq<Accelerator>, i: int) -> Seq<char> {
    match grouped_domain(groups, accels, i) {
        Some(d) => d,
        None => domain_id_of(seq![accels[i].id@]),
    }
}

/// The domain of a group.
pub open spec fn group_domain(members: Seq<IdModel>) -> topology::DomainModel {
    topology::DomainModel {
        id: domain_id_of(members),
        kind: FabricKind::XGmi,
        members,
        aggregate_bandwidth_gbps: None,
    }
}

/// The domain of a card by itself.
pub open spec fn single_domain(id: IdModel) -> topology::DomainModel {
    topology::DomainModel {
        id: domain_id_of(seq![id]),
        kind: FabricKind::Pcie,
        members: seq![id],
        aggregate_bandwidth_gbps: None,
    }
}

/// The domains of the cards by themselves among the first `n`.
pub open spec fn single_domains(
    groups: Seq<Seq<IdModel>>,
    accels: Seq<Accelerator>,
    n: int,
) -> Seq<topology::DomainModel>
    decreases n,
{
    if n <= 0 {
        Seq::empty()
    } else {
        let head = single_domains(groups, accels, n - 1);
        if grouped_domain(groups, accels, n - 1) is None {
            head.push(single_domain(accels[n - 1].id@))
        } else {
            head
        }
    }
}

/// The domains of a node: one for each group, then one for each card by
/// itself.
pub open spec fn all_domains(groups: Seq<Seq<IdModel>>, accels: Seq<Accelerator>) -> Seq<topology::DomainModel> {
    groups.map_values(|m: Seq<IdModel>| group_domain(m)) + single_domains(groups, accels, accels.len() as int)
}

/// The accelerators `after` are those `before` with their domains filled in.
pub open spec fn filled_in(
    groups: Seq<Seq<IdModel>>,
    before: Seq<Accelerator>,
    after: Seq<Accelerator>,
) -> bool {
    &&& after.len() == before.len()
    &&& forall|i: int|
        0 <= i < before.len() ==> #[trigger] after[i] == (Accelerator {
            fabric_domain: after[i].fabric_domain,
            ..before[i]
        }) && text::opt_text(after[i].fabric_domain) == Some(fabric_of(groups, before, i))
}

/// The domains and the accelerators are what the groups make of them.
pub open spec fn wired(
    fs: Sysfs,
    groups: Seq<Seq<IdModel>>,
    before: Seq<Accelerator>,
    after: Seq<Accelerator>,
    domains: Seq<topology::DomainModel>,
) -> bool {
    &&& are_xgmi_groups(fs, before, groups)
    &&& filled_in(groups, before, after)
    &&& domains == all_domains(groups, before)
}

/// Gives the first accelerator with the identity `m` the domain `id`.
fn assign(accels: &mut Vec<Accelerator>, m: &AcceleratorId, id: &String)
    ensures
        final(accels)@.len() == old(accels)@.len(),
        forall|i: int|
            0 <= i < old(accels)@.len() ==> #[trigger] final(accels)@[i] == (if old(accels)@[i].id@ == m@
                && is_first_of_id(old(accels)@, i) {
                Accelerator { fabric_domain: Some(*id), ..old(accels)@[i] }
            } else {
                old(accels)@[i]
            }),
{
    let ghost before = accels@;
    let n: usize = accels.len();
    let mut i: usize = 0;
    while i < n && !accels[i].id.same(m)
        invariant
            accels@ == before,
            n == before.len(),
            i <= n,
            forall|j: int| 0 <= j < i ==> (#[trigger] before[j]).id@ != m@,
        ensures
            accels@ == before,
            i <= n,
            forall|j: int| 0 <= j < i ==> (#[trigger] before[j]).id@ != m@,
            i < n ==> before[i as int].id@ == m@,
        decreases n - i,
    {
        i = i + 1;
    }
    if i < n {
        accels[i].fabric_domain = Some(id.clone());
    }
    proof {
        assert forall|k: int| 0 <= k < before.len() implies #[trigger] accels@[k] == (if before[k].id@ == m@
            && is_first_of_id(before, k) {
            Accelerator { fabric_domain: Some(*id), ..before[k] }
        } else {
            before[k]
        }) by {
            if k > i {
                assert(before[i as int].id@ == m@);
            }
        }
    }
}

/// A member before the position `(g, k)` of the groups has the identity `x`.
spec fn seen_at(groups: Seq<Seq<IdModel>>, g: int, k: int, h: int, m: int, x: IdModel) -> bool {
    &&& 0 <= h < groups.len()
    &&& 0 <= m < groups[h].len()
    &&& h < g || (h == g && m < k)
    &&& groups[h][m] == x
}

/// No member before the position `(g, k)` has the identity `x`.
spec fn unseen(groups: Seq<Seq<IdModel>>, g: int, k: int, x: IdModel) -> bool {
    forall|h: int, m: int| !#[trigger] seen_at(groups, g, k, h, m, x)
}

/// The accelerators after the members before `(g, k)` were given their
/// domains.
spec fn partly_assigned(
    groups: Seq<Seq<IdModel>>,
    g: int,
    k: int,
    before: Seq<Accelerator>,
    now: Seq<Accelerator>,
) -> bool {
    &&& now.len() == before.len()
    &&& forall|i: int|
        0 <= i < before.len() ==> #[trigger] now[i] == (Accelerator {
            fabric_domain: now[i].fabric_domain,
            ..before[i]
        })
    &&& forall|i: int, h: int, m: int|
        0 <= i < before.len() && is_first_of_id(before, i) && #[trigger] seen_at(
            groups,
            g,
            k,
            h,
            m,
            (#[trigger] before[i]).id@,
        ) ==> text::opt_text(now[i].fabric_domain) == Some(domain_id_of(groups[h]))
    &&& forall|i: int|
        0 <= i < before.len() && (!is_first_of_id(before, i) || unseen(groups, g, k, before[i].id@)) ==> (#[trigger] now[i]).fabric_domain
            == before[i].fabric_domain
}

/// How the accelerators of a node are wired. Fills in their domains.
pub fn discover(
    args: &Resolved,
    env: &TextMap<String>,
    fs: &Sysfs,
    lldp_neighbors: Vec<LldpNeighbor>,
    accelerators: &mut Vec<Accelerator>,
) -> (r: NodeTopology)
    ensures
        text::opt_text(r.region) == config::env_of(*env, "ACCEL_READINESS_REGION"@),
        text::opt_text(r.zone) == config::env_of(*env, "ACCEL_READINESS_ZONE"@),
        r.block == args.block,
        r.rack == args.rack,
        r.lldp_neighbors == lldp_neighbors,
        exists|groups: Seq<Seq<IdModel>>| #[trigger]
            wired(
                *fs,
                groups,
                old(accelerators)@,
                final(accelerators)@,
                topology::domains(r.fabric_domains@),
            ),
{
    let ghost before = accelerators@;
    let amd_groups = build_amd_xgmi_groups(fs, accelerators);
    let ghost groups = group_ids(amd_groups@);
    let ghost parts = groups.map_values(|m: Seq<IdModel>| group_domain(m));
    let mut fabric_domains: Vec<FabricDomain> = Vec::new();
    let mut g: usize = 0;
    assert(topology::domains(fabric_domains@) =~= parts.take(0));
    while g < amd_groups.len()
        invariant
            g <= amd_groups@.len(),
            groups == group_ids(amd_groups@),
            forall|g: int| 0 <= g < amd_groups@.len() ==> (#[trigger] amd_groups@[g]).1 == FabricKind::XGmi,
            are_xgmi_groups(*fs, before, groups),
            parts == groups.map_values(|m: Seq<IdModel>| group_domain(m)),
            partly_assigned(groups, g as int, 0, before, accelerators@),
            topology::domains(fabric_domains@) == parts.take(g as int),
        decreases amd_groups@.len() - g,
    {
        let members = &amd_groups[g].0;
        let id = stable_domain_id(members.as_slice());
        let ghost ms = topology::ids(members@);
        assert(groups[g as int] == ms);
        let mut copies: Vec<AcceleratorId> = Vec::new();
        let mut k: usize = 0;
        while k < members.len()
            invariant
                g < amd_groups@.len(),
                groups == group_ids(amd_groups@),
                groups[g as int] == ms,
                ms == topology::ids(members@),
                id@ == domain_id_of(ms),
                k <= members@.len(),
                are_xgmi_groups(*fs, before, groups),
                partly_assigned(groups, g as int, k as int, before, accelerators@),
                topology::ids(copies@) == ms.take(k as int),
            decreases members@.len() - k,
        {
            let ghost now = accelerators@;
            let ghost so_far = copies@;
            assign(accelerators, &members[k], &id);
            copies.push(members[k].clone());
            proof {
                assert(topology::ids(copies@) =~= topology::ids(so_far).push(members@[k as int]@));
                assert(ms.take(k + 1) =~= ms.take(k as int).push(ms[k as int]));
                lemma_assigned_one(groups, g as int, k as int, before, now, accelerators@, *members, id);
            }
            k = k + 1;
        }
        let ghost listed = fabric_domains@;
        fabric_domains.push(
            FabricDomain {
                id,
                kind: amd_groups[g].1,
                member_accelerators: copies,
                aggregate_bandwidth_gbps: None,
            },
        );
        proof {
            assert(ms.take(k as int) =~= ms);
            assert(parts[g as int] == group_domain(ms));
            assert(topology::domains(fabric_domains@) =~= topology::domains(listed).push(parts[g as int]));
            assert(parts.take(g + 1) =~= parts.take(g as int).push(parts[g as int]));
            lemma_next_group(groups, g as int, before, accelerators@);
        }
        g = g + 1;
    }
    let ghost grouped = accelerators@;
    proof {
        assert(parts.take(g as int) =~= parts);
        lemma_all_assigned(*fs, groups, before, grouped);
        assert(topology::domains(fabric_domains@) + single_domains(groups, before, 0) =~= parts);
    }
    let mut i: usize = 0;
    while i < accelerators.len()
        invariant
            i <= accelerators@.len(),
            accelerators@.len() == before.len(),
            grouped.len() == before.len(),
            forall|j: int|
                0 <= j < before.len() ==> #[trigger] grouped[j] == (Accelerator {
                    fabric_domain: grouped[j].fabric_domain,
                    ..before[j]
                }) && text::opt_text(grouped[j].fabric_domain) == grouped_domain(groups, before, j),
            forall|j: int| i <= j < before.len() ==> #[trigger] accelerators@[j] == grouped[j],
            forall|j: int|
                0 <= j < i ==> #[trigger] accelerators@[j] == (Accelerator {
                    fabric_domain: accelerators@[j].fabric_domain,
                    ..before[j]
                }) && text::opt_text(accelerators@[j].fabric_domain) == Some(fabric_of(groups, before, j)),
            topology::domains(fabric_domains@) == parts + single_domains(groups, before, i as int),
        decreases accelerators@.len() - i,
    {
        assert(accelerators@[i as int] == grouped[i as int]);
        if accelerators[i].fabric_domain.is_none() {
            let copy = accelerators[i].id.clone();
            let mut alone: Vec<AcceleratorId> = Vec::new();
            alone.push(copy);
            assert(topology::ids(alone@) =~= seq![before[i as int].id@]);
            let id = stable_domain_id(alone.as_slice());
            accelerators[i].fabric_domain = Some(id.clone());
            let ghost listed = fabric_domains@;
            fabric_domains.push(
                FabricDomain {
                    id,
                    kind: FabricKind::Pcie,
                    member_accelerators: alone,
                    aggregate_bandwidth_gbps: None,
                },
            );
            proof {
                let d = single_domain(before[i as int].id@);
                assert(topology::domains(fabric_domains@) =~= topology::domains(listed).push(d));
                assert(parts + single_domains(groups, before, i + 1) =~= (parts + single_domains(
                    groups,
                    before,
                    i as int,
                )).push(d));
            }
        }
        i = i + 1;
    }
    let r = NodeTopology {
        region: config::env_value(env, "ACCEL_READINESS_REGION"),
        zone: config::env_value(env, "ACCEL_READINESS_ZONE"),
        block: text::clone_opt(&args.block),
        rack: text::clone_opt(&args.rack),
        fabric_domains,
        lldp_neighbors,
    };
    assert(wired(*fs, groups, before, accelerators@, topology::domains(r.fabric_domains@)));
    r
}

proof fn lemma_assigned_one(
    groups: Seq<Seq<IdModel>>,
    g: int,
    k: int,
    before: Seq<Accelerator>,
    now: Seq<Accelerator>,
    next: Seq<Accelerator>,
    members: Vec<AcceleratorId>,
    id: String,
)
    requires
        0 <= g < groups.len(),
        groups[g] == topology::ids(members@),
        0 <= k < members@.len(),
        id@ == domain_id_of(groups[g]),
        forall|g: int| 0 <= g < groups.len() ==> (#[trigger] groups[g]).no_duplicates(),
        forall|g: int, h: int, x: IdModel|
            0 <= g < h < groups.len() && #[trigger] groups[g].contains(x) ==> !#[trigger] groups[h].contains(x),
        partly_assigned(groups, g, k, before, now),
        next.len() == now.len(),
        forall|i: int|
            0 <= i < now.len() ==> #[trigger] next[i] == (if now[i].id@ == members@[k]@ && is_first_of_id(now, i) {
                Accelerator { fabric_domain: Some(id), ..now[i] }
            } else {
                now[i]
            }),
    ensures
        partly_assigned(groups, g, k + 1, before, next),
{
    let x = members@[k]@;
    assert(groups[g][k] == x);
    assert forall|i: int| 0 <= i < before.len() implies #[trigger] is_first_of_id(now, i) == is_first_of_id(
        before,
        i,
    ) by {
        assert forall|j: int| 0 <= j < before.len() implies (#[trigger] now[j]).id@ == before[j].id@ by {}
        if is_first_of_id(now, i) {
            assert forall|j: int| 0 <= j < i implies (#[trigger] before[j]).id@ != before[i].id@ by {
                assert(now[j].id@ != now[i].id@);
            }
        }
    }
    assert forall|i: int, h: int, m: int|
        0 <= i < before.len() && is_first_of_id(before, i) && #[trigger] seen_at(
            groups,
            g,
            k + 1,
            h,
            m,
            (#[trigger] before[i]).id@,
        ) implies text::opt_text(next[i].fabric_domain) == Some(domain_id_of(groups[h])) by {
        assert(now[i].id@ == before[i].id@);
        assert(is_first_of_id(now, i) == is_first_of_id(before, i));
        if h == g && m == k {
            assert(next[i].fabric_domain == Some(id));
        } else {
            assert(seen_at(groups, g, k, h, m, before[i].id@));
            if before[i].id@ == x {
                assert(groups[h].contains(x));
                assert(groups[g].contains(x));
                if h == g {
                    assert(groups[g][m] == groups[g][k]);
                }
            }
        }
    }
    assert forall|i: int|
        0 <= i < before.len() && (!is_first_of_id(before, i) || unseen(groups, g, k + 1, before[i].id@)) implies (#[trigger] next[i]).fabric_domain
        == before[i].fabric_domain by {
        assert(now[i].id@ == before[i].id@);
        assert(is_first_of_id(now, i) == is_first_of_id(before, i));
        if is_first_of_id(before, i) {
            assert(!seen_at(groups, g, k + 1, g, k, before[i].id@));
            assert forall|h: int, m: int| !#[trigger] seen_at(groups, g, k, h, m, before[i].id@) by {
                assert(!seen_at(groups, g, k + 1, h, m, before[i].id@));
            }
        }
        assert(now[i].fabric_domain == before[i].fabric_domain);
    }
}

proof fn lemma_next_group(groups: Seq<Seq<IdModel>>, g: int, before: Seq<Accelerator>, now: Seq<Accelerator>)
    requires
        0 <= g < groups.len(),
        partly_assigned(groups, g, groups[g].len() as int, before, now),
    ensures
        partly_assigned(groups, g + 1, 0, before, now),
{
    let n = groups[g].len() as int;
    assert forall|h: int, m: int, x: IdModel| #[trigger] seen_at(groups, g + 1, 0, h, m, x) == seen_at(
        groups,
        g,
        n,
        h,
        m,
        x,
    ) by {}
    assert forall|i: int, h: int, m: int|
        0 <= i < before.len() && is_first_of_id(before, i) && #[trigger] seen_at(
            groups,
            g + 1,
            0,
            h,
            m,
            (#[trigger] before[i]).id@,
        ) implies text::opt_text(now[i].fabric_domain) == Some(domain_id_of(groups[h])) by {
        assert(seen_at(groups, g, n, h, m, before[i].id@));
    }
    assert forall|i: int|
        0 <= i < before.len() && (!is_first_of_id(before, i) || unseen(groups, g + 1, 0, before[i].id@)) implies (#[trigger] now[i]).fabric_domain
        == before[i].fabric_domain by {
        if is_first_of_id(before, i) {
            assert forall|h: int, m: int| !#[trigger] seen_at(groups, g, n, h, m, before[i].id@) by {
                assert(!seen_at(groups, g + 1, 0, h, m, before[i].id@));
            }
        }
    }
}

proof fn lemma_all_assigned(
    fs: Sysfs,
    groups: Seq<Seq<IdModel>>,
    before: Seq<Accelerator>,
    now: Seq<Accelerator>,
)
    requires
        are_xgmi_groups(fs, before, groups),
        partly_assigned(groups, groups.len() as int, 0, before, now),
    ensures
        forall|i: int|
            0 <= i < before.len() ==> #[trigger] now[i] == (Accelerator {
                fabric_domain: now[i].fabric_domain,
                ..before[i]
            }) && text::opt_text(now[i].fabric_domain) == grouped_domain(groups, before, i),
{
    let n = groups.len() as int;
    assert forall|i: int| 0 <= i < before.len() implies text::opt_text((#[trigger] now[i]).fabric_domain)
        == grouped_domain(groups, before, i) by {
        let x = before[i].id@;
        if is_first_of_id(before, i) && xgmi_domain(groups, x) is Some {
            let g = choose|g: int| 0 <= g < groups.len() && #[trigger] groups[g].contains(x);
            let m = choose|m: int| 0 <= m < groups[g].len() && groups[g][m] == x;
            assert(seen_at(groups, n, 0, g, m, x));
        } else if is_first_of_id(before, i) {
            assert forall|h: int, m: int| !#[trigger] seen_at(groups, n, 0, h, m, x) by {
                if seen_at(groups, n, 0, h, m, x) {
                    assert(groups[h].contains(x));
                }
            }
        }
    }
}

// ---------------------------------------------------------------------
// What holds of the domains
// ---------------------------------------------------------------------

/// No two accelerators have the same identity.
pub open spec fn distinct_ids(accels: Seq<Accelerator>) -> bool {
    forall|i: int, j: int|
        0 <= i < j < accels.len() ==> (#[trigger] accels[i]).id@ != (#[trigger] accels[j]).id@
}

/// No accelerator has a domain yet.
pub open spec fn without_domains(accels: Seq<Accelerator>) -> bool {
    forall|i: int| 0 <= i < accels.len() ==> (#[trigger] accels[i]).fabric_domain is None
}

/// `d` is the domain of the card with index `i`, which stands by itself.
pub open spec fn stands_alone(
    groups: Seq<Seq<IdModel>>,
    accels: Seq<Accelerator>,
    i: int,
    d: topology::DomainModel,
) -> bool {
    grouped_domain(groups, accels, i) is None && d == single_domain(accels[i].id@)
}

proof fn lemma_single_listed(groups: Seq<Seq<IdModel>>, accels: Seq<Accelerator>, n: int, i: int)
    requires
        0 <= i < n <= accels.len(),
        grouped_domain(groups, accels, i) is None,
    ensures
        single_domains(groups, accels, n).contains(single_domain(accels[i].id@)),
    decreases n,
{
    let h = single_domains(groups, accels, n - 1);
    let s = single_domains(groups, accels, n);
    let x = single_domain(accels[i].id@);
    if i < n - 1 {
        lemma_single_listed(groups, accels, n - 1, i);
        let d = choose|d: int| 0 <= d < h.len() && h[d] == x;
        assert(s[d] == h[d]);
    } else {
        assert(s[h.len() as int] == x);
    }
}

/// A domain of a card by itself is that of some card.
pub proof fn lemma_single_source(groups: Seq<Seq<IdModel>>, accels: Seq<Accelerator>, n: int, d: int) -> (i: int)
    requires
        0 <= n <= accels.len(),
        0 <= d < single_domains(groups, accels, n).len(),
    ensures
        0 <= i < n,
        stands_alone(groups, accels, i, single_domains(groups, accels, n)[d]),
    decreases n,
{
    let h = single_domains(groups, accels, n - 1);
    if d < h.len() {
        lemma_single_source(groups, accels, n - 1, d)
    } else {
        n - 1
    }
}

proof fn lemma_single_once(groups: Seq<Seq<IdModel>>, accels: Seq<Accelerator>, n: int, d: int, e: int)
    requires
        0 <= n <= accels.len(),
        distinct_ids(accels),
        0 <= d < e < single_domains(groups, accels, n).len(),
    ensures
        single_domains(groups, accels, n)[d].members[0] != single_domains(groups, accels, n)[e].members[0],
    decreases n,
{
    let h = single_domains(groups, accels, n - 1);
    if e < h.len() {
        lemma_single_once(groups, accels, n - 1, d, e);
    } else {
        let i = lemma_single_source(groups, accels, n - 1, d);
        assert(accels[i].id@ != accels[n - 1].id@);
    }
}

proof fn lemma_single_member(
    groups: Seq<Seq<IdModel>>,
    accels: Seq<Accelerator>,
    i: int,
    d: int,
)
    requires
        distinct_ids(accels),
        0 <= i < accels.len(),
        0 <= d < single_domains(groups, accels, accels.len() as int).len(),
        single_domains(groups, accels, accels.len() as int)[d].members.contains(accels[i].id@),
    ensures
        grouped_domain(groups, accels, i) is None,
        single_domains(groups, accels, accels.len() as int)[d].members[0] == accels[i].id@,
{
    let j = lemma_single_source(groups, accels, accels.len() as int, d);
    let m = seq![accels[j].id@];
    let k = choose|k: int| 0 <= k < m.len() && m[k] == accels[i].id@;
    assert(m[k] == accels[j].id@);
    if i < j {
        assert(accels[i].id@ != accels[j].id@);
    }
    if j < i {
        assert(accels[j].id@ != accels[i].id@);
    }
}

/// No identity is in two groups.
pub open spec fn disjoint_groups(groups: Seq<Seq<IdModel>>) -> bool {
    forall|g: int, h: int, x: IdModel|
        0 <= g < h < groups.len() && #[trigger] groups[g].contains(x) ==> !#[trigger] groups[h].contains(x)
}

/// An accelerator is in one domain only.
pub proof fn lemma_in_one_domain(groups: Seq<Seq<IdModel>>, accels: Seq<Accelerator>, i: int, d: int, e: int)
    requires
        disjoint_groups(groups),
        distinct_ids(accels),
        0 <= i < accels.len(),
        0 <= d <= e < all_domains(groups, accels).len(),
        all_domains(groups, accels)[d].members.contains(accels[i].id@),
        all_domains(groups, accels)[e].members.contains(accels[i].id@),
    ensures
        d == e,
{
    let x = accels[i].id@;
    let p = groups.len() as int;
    let n = accels.len() as int;
    let parts = groups.map_values(|m: Seq<IdModel>| group_domain(m));
    let singles = single_domains(groups, accels, n);
    let all = all_domains(groups, accels);
    if d < p {
        assert(all[d] == parts[d]);
        assert(groups[d].contains(x));
        if e < p {
            assert(all[e] == parts[e]);
            assert(groups[e].contains(x));
        } else {
            assert(all[e] == singles[e - p]);
            lemma_single_member(groups, accels, i, e - p);
            assert(is_first_of_id(accels, i));
            assert(xgmi_domain(groups, x) is Some);
        }
    } else {
        assert(all[d] == singles[d - p]);
        assert(all[e] == singles[e - p]);
        lemma_single_member(groups, accels, i, d - p);
        lemma_single_member(groups, accels, i, e - p);
        if d < e {
            lemma_single_once(groups, accels, n, d - p, e - p);
        }
    }
}

/// Every accelerator is a member of one domain, and of one only, and that
/// domain is the one it carries.
pub proof fn law_each_in_one_domain(fs: Sysfs, groups: Seq<Seq<IdModel>>, accels: Seq<Accelerator>, i: int)
    requires
        are_xgmi_groups(fs, accels, groups),
        distinct_ids(accels),
        without_domains(accels),
        0 <= i < accels.len(),
    ensures
        exists|d: int|
            0 <= d < all_domains(groups, accels).len() && (#[trigger] all_domains(
                groups,
                accels,
            )[d]).members.contains(accels[i].id@) && all_domains(groups, accels)[d].id == fabric_of(
                groups,
                accels,
                i,
            ),
        forall|d: int, e: int|
            0 <= d < all_domains(groups, accels).len() && 0 <= e < all_domains(groups, accels).len() && (
            #[trigger] all_domains(groups, accels)[d]).members.contains(accels[i].id@) && (#[trigger] all_domains(
                groups,
                accels,
            )[e]).members.contains(accels[i].id@) ==> d == e,
{
    let x = accels[i].id@;
    let n = accels.len() as int;
    let singles = single_domains(groups, accels, n);
    let all = all_domains(groups, accels);
    assert(is_first_of_id(accels, i));
    if xgmi_domain(groups, x) is Some {
        let g = choose|g: int| 0 <= g < groups.len() && #[trigger] groups[g].contains(x);
        assert(all[g] == groups.map_values(|m: Seq<IdModel>| group_domain(m))[g]);
        assert(all[g].members.contains(x) && all[g].id == fabric_of(groups, accels, i));
    } else {
        lemma_single_listed(groups, accels, n, i);
        let s = choose|s: int| 0 <= s < singles.len() && singles[s] == single_domain(x);
        assert(seq![x][0] == x);
        assert(all[groups.len() + s] == single_domain(x));
        assert(all[groups.len() + s].members.contains(x));
    }
    assert forall|d: int, e: int|
        0 <= d < all.len() && 0 <= e < all.len() && (#[trigger] all[d]).members.contains(x) && (#[trigger]
        all[e]).members.contains(x) implies d == e by {
        if d <= e {
            lemma_in_one_domain(groups, accels, i, d, e);
        } else {
            lemma_in_one_domain(groups, accels, i, e, d);
        }
    }
}

/// An accelerator that is not AMD's has a PCIe domain to itself.
pub proof fn law_other_vendors_stand_alone(
    fs: Sysfs,
    groups: Seq<Seq<IdModel>>,
    accels: Seq<Accelerator>,
    i: int,
)
    requires
        are_xgmi_groups(fs, accels, groups),
        distinct_ids(accels),
        without_domains(accels),
        0 <= i < accels.len(),
        accels[i].id.vendor != Vendor::Amd,
    ensures
        fabric_of(groups, accels, i) == domain_id_of(seq![accels[i].id@]),
        all_domains(groups, accels).contains(single_domain(accels[i].id@)),
{
    let x = accels[i].id@;
    let rel = linked(fs, accels);
    assert forall|g: int| 0 <= g < groups.len() implies !#[trigger] groups[g].contains(x) by {
        if groups[g].contains(x) {
            let y = choose|y: IdModel| #[trigger] rel(x, y);
            if points_to(fs, accels, x, y) {
                let (j, k) = choose|j: int, k: int|
                    accels[j].id@ == x && #[trigger] names_peer(fs, accels, j, k, y);
                assert(accels[j].id@.vendor == Vendor::Amd);
            } else {
                let (j, k) = choose|j: int, k: int|
                    accels[j].id@ == y && #[trigger] names_peer(fs, accels, j, k, x);
                lemma_amd_at(accels, xgmi_peers_of(fs, accels[j].device_dir@)[k], x);
                let m = choose|m: int|
                    0 <= m < accels.len() && (#[trigger] accels[m]).id.vendor == Vendor::Amd && accels[m].id@ == x;
                assert(accels[m].id@.vendor == Vendor::Amd);
            }
        }
    }
    lemma_single_listed(groups, accels, accels.len() as int, i);
    let singles = single_domains(groups, accels, accels.len() as int);
    let all = all_domains(groups, accels);
    let s = choose|s: int| 0 <= s < singles.len() && singles[s] == single_domain(x);
    assert(all[groups.len() + s] == single_domain(x));
}

} // verus!
