//! What the fabric domains and the labels of a node say of its
//! accelerators.

use super::discover;
use super::labels;
use super::labels::InventoryEntry;
use super::lldp;
use super::lldp::{ChassisIdKind, DiscoverEvent, NeighborModel, SlugUse, Tlv};
use super::rdma;
use super::rdma::{DeviceEntry, DeviceModel, PortEntry, PortModel, RdmaDevice};
use super::{DomainModel, FabricDomain, FabricKind, NodeTopology};
use crate::graph;
use crate::hashing;
use crate::number;
use crate::paths;
use crate::scan;
use crate::scan::CharClass;
use crate::sensors::common;
use crate::sensors::common::Sysfs;
use crate::sensors::{Accelerator, IdModel, MemoryKind, Vendor};
use crate::sorting;
use crate::text;
use crate::topology;
use std::collections::hash_map::DefaultHasher;
use vstd::prelude::*;
use vstd::std_specs::hash::DefaultHasherAdditionalSpecFns;
use vstd::utf8;

verus! {

// ---------------------------------------------------------------------
// Labels that count
// ---------------------------------------------------------------------

/// The label is there and reads as the number.
pub open spec fn says(labels: Map<Seq<char>, Seq<char>>, key: Seq<char>, n: nat) -> bool {
    labels.contains_key(key) && number::unsigned_of(labels[key], 10) == Some(n)
}

/// The label reads as the number, or is not there where the number is zero.
pub open spec fn says_any(labels: Map<Seq<char>, Seq<char>>, key: Seq<char>, n: nat) -> bool {
    if n == 0 {
        !labels.contains_key(key)
    } else {
        says(labels, key, n)
    }
}

proof fn lemma_numeral(n: nat)
    ensures
        number::unsigned_of(number::decimal(n), 10) == Some(n),
{
    number::law_decimal_reads_back(n, n);
}

/// No two domains have the same identifier.
pub open spec fn distinct_domains(domains: Seq<FabricDomain>) -> bool {
    forall|d: int, e: int|
        0 <= d < e < domains.len() ==> (#[trigger] domains[d]).id@ != (#[trigger] domains[e]).id@
}

proof fn lemma_total_once(pairs: Seq<(Seq<char>, nat)>, i: int)
    requires
        0 <= i < pairs.len(),
        forall|j: int| 0 <= j < pairs.len() && j != i ==> (#[trigger] pairs[j]).0 != pairs[i].0,
    ensures
        labels::total(pairs, pairs[i].0) == pairs[i].1,
    decreases pairs.len(),
{
    let key = pairs[i].0;
    let front = pairs.drop_last();
    if i == pairs.len() - 1 {
        assert(!labels::key_among(front, key)) by {
            if labels::key_among(front, key) {
                let j = choose|j: int| 0 <= j < front.len() && (#[trigger] front[j]).0 == key;
                assert(pairs[j].0 == key);
            }
        }
        labels::lemma_total_absent(front, key);
    } else {
        assert(front[i] == pairs[i]);
        assert forall|j: int| 0 <= j < front.len() && j != i implies (#[trigger] front[j]).0 != front[i].0 by {
            assert(front[j] == pairs[j]);
        }
        lemma_total_once(front, i);
        assert(pairs[pairs.len() - 1].0 != key);
    }
}

proof fn lemma_domain_key(t: NodeTopology, accels: Seq<Accelerator>, id: Seq<char>)
    ensures
        ({
            let key = "accel-topo.lunnova.dev/fabric-domain."@ + id;
            let c = labels::tally(labels::domain_sizes(t.fabric_domains@));
            &&& labels::labels_of(t, accels).contains_key(key) == c.contains_key(id)
            &&& c.contains_key(id) ==> labels::labels_of(t, accels)[key] == number::decimal(c[id])
        }),
{
    reveal_strlit("");
    reveal_strlit("accel-topo.lunnova.dev/block");
    reveal_strlit("accel-topo.lunnova.dev/rack");
    reveal_strlit("accel-topo.lunnova.dev/fabric-domain.");
    reveal_strlit("accel-topo.lunnova.dev/fabric-domains-count");
    reveal_strlit("accel.lunnova.dev/vendor.");
    reveal_strlit("accel.lunnova.dev/model.");
    reveal_strlit("accel.lunnova.dev/memory-kind.");
    reveal_strlit("accel.lunnova.dev/total-count");
    let prefix = "accel-topo.lunnova.dev/fabric-domain."@;
    let key = prefix + id;
    assert(prefix + id + ""@ =~= key);
    assert(key[5] == prefix[5] && key[23] == prefix[23] && key[36] == prefix[36]);
    assert(key[23] != "accel-topo.lunnova.dev/block"@[23]);
    assert(key[23] != "accel-topo.lunnova.dev/rack"@[23]);
    assert(key[36] != "accel-topo.lunnova.dev/fabric-domains-count"@[36]);
    assert(key[5] != "accel.lunnova.dev/total-count"@[5]);
    labels::lemma_not_count_label(
        "accel.lunnova.dev/vendor."@,
        ".count"@,
        labels::tally(labels::vendors(accels)),
        key,
        5,
    );
    labels::lemma_not_count_label(
        "accel.lunnova.dev/model."@,
        ".count"@,
        labels::tally(labels::model_slugs(accels)),
        key,
        5,
    );
    labels::lemma_not_count_label(
        "accel.lunnova.dev/memory-kind."@,
        ".count"@,
        labels::tally(labels::memory_kinds(accels)),
        key,
        5,
    );
    labels::lemma_not_count_label(
        "accel.lunnova.dev/vendor."@,
        ".physical-count"@,
        labels::physical_counts(accels),
        key,
        5,
    );
    labels::lemma_count_label(prefix, ""@, labels::tally(labels::domain_sizes(t.fabric_domains@)), id);
}

/// The label of a domain reads as the number of its members.
pub proof fn law_domain_label_is_its_size(t: NodeTopology, accels: Seq<Accelerator>, d: int)
    requires
        distinct_domains(t.fabric_domains@),
        0 <= d < t.fabric_domains@.len(),
    ensures
        says(
            labels::labels_of(t, accels),
            "accel-topo.lunnova.dev/fabric-domain."@ + t.fabric_domains@[d].id@,
            t.fabric_domains@[d].member_accelerators@.len(),
        ),
{
    let ds = t.fabric_domains@;
    let pairs = labels::domain_sizes(ds);
    let id = ds[d].id@;
    lemma_domain_key(t, accels, id);
    assert(pairs[d].0 == id);
    assert forall|j: int| 0 <= j < pairs.len() && j != d implies (#[trigger] pairs[j]).0 != pairs[d].0 by {
        if j < d {
            assert(ds[j].id@ != ds[d].id@);
        } else {
            assert(ds[d].id@ != ds[j].id@);
        }
    }
    lemma_total_once(pairs, d);
    lemma_numeral(ds[d].member_accelerators@.len());
}

/// Only domains have such labels, and there is one more label with their
/// number.
pub proof fn law_domain_labels_are_of_domains(t: NodeTopology, accels: Seq<Accelerator>, id: Seq<char>)
    ensures
        labels::labels_of(t, accels).contains_key("accel-topo.lunnova.dev/fabric-domain."@ + id) <==> exists|
            d: int,
        |
            0 <= d < t.fabric_domains@.len() && (#[trigger] t.fabric_domains@[d]).id@ == id,
        says(
            labels::labels_of(t, accels),
            "accel-topo.lunnova.dev/fabric-domains-count"@,
            t.fabric_domains@.len(),
        ),
{
    let ds = t.fabric_domains@;
    let pairs = labels::domain_sizes(ds);
    lemma_domain_key(t, accels, id);
    if labels::key_among(pairs, id) {
        let i = choose|i: int| 0 <= i < pairs.len() && (#[trigger] pairs[i]).0 == id;
        assert(ds[i].id@ == id);
    }
    if exists|d: int| 0 <= d < ds.len() && (#[trigger] ds[d]).id@ == id {
        let d = choose|d: int| 0 <= d < ds.len() && (#[trigger] ds[d]).id@ == id;
        assert(pairs[d].0 == id);
    }
    let key = "accel-topo.lunnova.dev/fabric-domains-count"@;
    lemma_numeral(ds.len());
    reveal_strlit("accel-topo.lunnova.dev/fabric-domains-count");
    reveal_strlit("accel.lunnova.dev/vendor.");
    reveal_strlit("accel.lunnova.dev/model.");
    reveal_strlit("accel.lunnova.dev/memory-kind.");
    reveal_strlit("accel.lunnova.dev/total-count");
    assert(key[5] != "accel.lunnova.dev/total-count"@[5]);
    labels::lemma_not_count_label(
        "accel.lunnova.dev/vendor."@,
        ".count"@,
        labels::tally(labels::vendors(accels)),
        key,
        5,
    );
    labels::lemma_not_count_label(
        "accel.lunnova.dev/model."@,
        ".count"@,
        labels::tally(labels::model_slugs(accels)),
        key,
        5,
    );
    labels::lemma_not_count_label(
        "accel.lunnova.dev/memory-kind."@,
        ".count"@,
        labels::tally(labels::memory_kinds(accels)),
        key,
        5,
    );
    labels::lemma_not_count_label(
        "accel.lunnova.dev/vendor."@,
        ".physical-count"@,
        labels::physical_counts(accels),
        key,
        5,
    );
}

// ---------------------------------------------------------------------
// The numbers of the domains
// ---------------------------------------------------------------------

/// Numbers added up.
pub open spec fn sum_of(numbers: Seq<nat>) -> nat
    decreases numbers.len(),
{
    if numbers.len() == 0 {
        0
    } else {
        sum_of(numbers.drop_last()) + numbers.last()
    }
}

/// The members of the first `n` domains.
spec fn members_before(ds: Seq<DomainModel>, n: int) -> Set<IdModel> {
    Set::new(|x: IdModel| exists|d: int| 0 <= d < n && (#[trigger] ds[d]).members.contains(x))
}

proof fn lemma_members_add_up(ds: Seq<DomainModel>, numbers: Seq<nat>, n: int)
    requires
        0 <= n <= ds.len(),
        numbers.len() == n,
        forall|d: int| 0 <= d < n ==> numbers[d] == (#[trigger] ds[d]).members.len(),
        forall|d: int| 0 <= d < ds.len() ==> (#[trigger] ds[d]).members.no_duplicates(),
        forall|d: int, e: int, x: IdModel|
            0 <= d < e < ds.len() && #[trigger] ds[d].members.contains(x) ==> !#[trigger] ds[e].members.contains(
                x,
            ),
    ensures
        members_before(ds, n).finite(),
        members_before(ds, n).len() == sum_of(numbers),
    decreases n,
{
    if n == 0 {
        assert(members_before(ds, 0) =~= Set::empty());
    } else {
        let front = numbers.drop_last();
        assert forall|d: int| 0 <= d < n - 1 implies front[d] == (#[trigger] ds[d]).members.len() by {
            assert(front[d] == numbers[d]);
        }
        lemma_members_add_up(ds, front, n - 1);
        let a = members_before(ds, n - 1);
        let b = ds[n - 1].members.to_set();
        ds[n - 1].members.unique_seq_to_set();
        assert(a.disjoint(b)) by {
            assert forall|x: IdModel| !(#[trigger] a.contains(x) && b.contains(x)) by {
                if a.contains(x) && b.contains(x) {
                    let d = choose|d: int| 0 <= d < n - 1 && (#[trigger] ds[d]).members.contains(x);
                    assert(ds[n - 1].members.contains(x));
                }
            }
        }
        vstd::set_lib::lemma_set_disjoint_lens(a, b);
        assert forall|x: IdModel| members_before(ds, n).contains(x) == (a + b).contains(x) by {
            if members_before(ds, n).contains(x) {
                let d = choose|d: int| 0 <= d < n && (#[trigger] ds[d]).members.contains(x);
                if d < n - 1 {
                    assert(a.contains(x));
                }
            }
            if a.contains(x) {
                let d = choose|d: int| 0 <= d < n - 1 && (#[trigger] ds[d]).members.contains(x);
                assert(ds[d].members.contains(x));
            }
            if b.contains(x) {
                assert(ds[n - 1].members.contains(x));
            }
        }
        assert(members_before(ds, n) =~= a + b);
    }
}

proof fn lemma_linked_is_accelerator(fs: Sysfs, accels: Seq<Accelerator>, x: IdModel, y: IdModel)
    requires
        discover::linked(fs, accels)(x, y),
    ensures
        exists|i: int| 0 <= i < accels.len() && (#[trigger] accels[i]).id@ == x && accels[i].id.vendor == Vendor::Amd,
{
    if discover::points_to(fs, accels, x, y) {
        let (i, k) = choose|i: int, k: int|
            accels[i].id@ == x && #[trigger] discover::names_peer(fs, accels, i, k, y);
        assert(accels[i].id@ == x);
    } else {
        let (i, k) = choose|i: int, k: int|
            accels[i].id@ == y && #[trigger] discover::names_peer(fs, accels, i, k, x);
        discover::lemma_amd_at(accels, discover::xgmi_peers_of(fs, accels[i].device_dir@)[k], x);
    }
}

proof fn lemma_member_is_accelerator(
    fs: Sysfs,
    groups: Seq<Seq<IdModel>>,
    accels: Seq<Accelerator>,
    d: int,
    x: IdModel,
)
    requires
        discover::are_xgmi_groups(fs, accels, groups),
        0 <= d < discover::all_domains(groups, accels).len(),
        discover::all_domains(groups, accels)[d].members.contains(x),
    ensures
        exists|i: int| 0 <= i < accels.len() && (#[trigger] accels[i]).id@ == x,
{
    let all = discover::all_domains(groups, accels);
    let p = groups.len() as int;
    if d < p {
        assert(all[d].members == groups[d]);
        let rel = discover::linked(fs, accels);
        let y = choose|y: IdModel| #[trigger] rel(x, y);
        lemma_linked_is_accelerator(fs, accels, x, y);
    } else {
        let singles = discover::single_domains(groups, accels, accels.len() as int);
        assert(all[d] == singles[d - p]);
        let i = discover::lemma_single_source(groups, accels, accels.len() as int, d - p);
        assert(accels[i].id@ == x);
    }
}

/// The numbers of members of the domains of a node add up to the number of
/// its accelerators.
pub proof fn law_domain_sizes_add_up(
    fs: Sysfs,
    groups: Seq<Seq<IdModel>>,
    before: Seq<Accelerator>,
    after: Seq<Accelerator>,
    ds: Seq<DomainModel>,
    numbers: Seq<nat>,
)
    requires
        discover::wired(fs, groups, before, after, ds),
        discover::distinct_ids(before),
        discover::without_domains(before),
        numbers.len() == ds.len(),
        forall|d: int| 0 <= d < ds.len() ==> numbers[d] == (#[trigger] ds[d]).members.len(),
    ensures
        sum_of(numbers) == before.len(),
        after.len() == before.len(),
{
    let all = discover::all_domains(groups, before);
    let p = groups.len() as int;
    let ids = before.map_values(|a: Accelerator| a.id@);
    assert forall|d: int| 0 <= d < ds.len() implies (#[trigger] ds[d]).members.no_duplicates() by {
        if d < p {
            assert(ds[d].members == groups[d]);
        } else {
            let singles = discover::single_domains(groups, before, before.len() as int);
            assert(all[d] == singles[d - p]);
            let i = discover::lemma_single_source(groups, before, before.len() as int, d - p);
        }
    }
    assert forall|d: int, e: int, x: IdModel|
        0 <= d < e < ds.len() && #[trigger] ds[d].members.contains(x) implies !#[trigger] ds[e].members.contains(
        x,
    ) by {
        if ds[e].members.contains(x) {
            lemma_member_is_accelerator(fs, groups, before, d, x);
            let i = choose|i: int| 0 <= i < before.len() && (#[trigger] before[i]).id@ == x;
            discover::lemma_in_one_domain(groups, before, i, d, e);
        }
    }
    let n = ds.len() as int;
    lemma_members_add_up(ds, numbers, n);
    assert(ids.no_duplicates()) by {
        assert forall|i: int, j: int| 0 <= i < ids.len() && 0 <= j < ids.len() && i != j implies ids[i]
            != ids[j] by {
            if i < j {
                assert(before[i].id@ != before[j].id@);
            } else {
                assert(before[j].id@ != before[i].id@);
            }
        }
    }
    ids.unique_seq_to_set();
    assert forall|x: IdModel| members_before(ds, n).contains(x) == ids.to_set().contains(x) by {
        if members_before(ds, n).contains(x) {
            let d = choose|d: int| 0 <= d < n && (#[trigger] ds[d]).members.contains(x);
            lemma_member_is_accelerator(fs, groups, before, d, x);
            let i = choose|i: int| 0 <= i < before.len() && (#[trigger] before[i]).id@ == x;
            assert(ids[i] == x);
        }
        if ids.contains(x) {
            let i = choose|i: int| 0 <= i < ids.len() && ids[i] == x;
            discover::law_each_in_one_domain(fs, groups, before, i);
            let d = choose|d: int| 0 <= d < all.len() && (#[trigger] all[d]).members.contains(x);
            assert(ds[d].members.contains(x));
        }
    }
    assert(members_before(ds, n) =~= ids.to_set());
}

/// The numbers that the labels of the domains read as add up to the number
/// of accelerators that were wired.
pub proof fn law_domain_labels_add_up(
    fs: Sysfs,
    groups: Seq<Seq<IdModel>>,
    before: Seq<Accelerator>,
    after: Seq<Accelerator>,
    t: NodeTopology,
    numbers: Seq<nat>,
)
    requires
        discover::wired(fs, groups, before, after, topology::domains(t.fabric_domains@)),
        discover::distinct_ids(before),
        discover::without_domains(before),
        distinct_domains(t.fabric_domains@),
        numbers.len() == t.fabric_domains@.len(),
        forall|d: int|
            0 <= d < numbers.len() ==> says(
                labels::labels_of(t, after),
                "accel-topo.lunnova.dev/fabric-domain."@ + (#[trigger] t.fabric_domains@[d]).id@,
                numbers[d],
            ),
    ensures
        sum_of(numbers) == before.len(),
{
    let ds = topology::domains(t.fabric_domains@);
    assert forall|d: int| 0 <= d < ds.len() implies numbers[d] == (#[trigger] ds[d]).members.len() by {
        assert(ds[d] == t.fabric_domains@[d]@);
        law_domain_label_is_its_size(t, after, d);
    }
    law_domain_sizes_add_up(fs, groups, before, after, ds, numbers);
}

// ---------------------------------------------------------------------
// The wiring
// ---------------------------------------------------------------------

proof fn lemma_only_at(accels: Seq<Accelerator>, j: int, addr: Seq<char>)
    requires
        0 <= j < accels.len(),
        accels[j].id.vendor == Vendor::Amd,
        accels[j].id.pci_addr@ == addr,
        forall|m: int|
            0 <= m < accels.len() && (#[trigger] accels[m]).id.vendor == Vendor::Amd && accels[m].id.pci_addr@ == addr
                ==> m == j,
    ensures
        discover::amd_at(accels, addr) == Some(accels[j].id@),
    decreases accels.len(),
{
    if j > 0 {
        let rest = accels.drop_first();
        assert(accels[0].id.vendor != Vendor::Amd || accels[0].id.pci_addr@ != addr);
        assert(rest[j - 1] == accels[j]);
        assert forall|m: int|
            0 <= m < rest.len() && (#[trigger] rest[m]).id.vendor == Vendor::Amd && rest[m].id.pci_addr@ == addr implies m
            == j - 1 by {
            assert(rest[m] == accels[m + 1]);
        }
        lemma_only_at(rest, j - 1, addr);
    }
}

proof fn lemma_group_of(
    fs: Sysfs,
    groups: Seq<Seq<IdModel>>,
    accels: Seq<Accelerator>,
    i: int,
    g: int,
)
    requires
        discover::are_xgmi_groups(fs, accels, groups),
        discover::distinct_ids(accels),
        0 <= i < accels.len(),
        0 <= g < groups.len(),
        groups[g].contains(accels[i].id@),
    ensures
        discover::fabric_of(groups, accels, i) == discover::all_domains(groups, accels)[g].id,
{
    let x = accels[i].id@;
    assert(discover::is_first_of_id(accels, i));
    assert(discover::xgmi_domain(groups, x) is Some);
    let h = choose|h: int| 0 <= h < groups.len() && #[trigger] groups[h].contains(x);
    if g < h {
        assert(!groups[h].contains(x));
    }
    if h < g {
        assert(!groups[g].contains(x));
    }
    assert(discover::all_domains(groups, accels)[g].id == discover::domain_id_of(groups[g]));
}

/// Two AMD accelerators of which one lists the other's address as an xGMI
/// peer are members of one xGMI domain, and both carry its identifier.
pub proof fn law_peers_share_a_domain(
    fs: Sysfs,
    groups: Seq<Seq<IdModel>>,
    before: Seq<Accelerator>,
    after: Seq<Accelerator>,
    ds: Seq<DomainModel>,
    i: int,
    j: int,
    list: Seq<char>,
)
    requires
        discover::wired(fs, groups, before, after, ds),
        discover::distinct_ids(before),
        0 <= i < before.len(),
        0 <= j < before.len(),
        before[i].id.vendor == Vendor::Amd,
        before[j].id.vendor == Vendor::Amd,
        forall|m: int|
            0 <= m < before.len() && (#[trigger] before[m]).id.vendor == Vendor::Amd && before[m].id.pci_addr@
                == before[j].id.pci_addr@ ==> m == j,
        fs.devices@.contains_key(before[i].device_dir@),
        fs.devices@[before[i].device_dir@].xgmi_link_count,
        fs.file(before[i].device_dir@, "xgmi_peer_links"@) == Some(list),
        scan::fields_of(list, CharClass::AsciiSpace).contains(before[j].id.pci_addr@),
        before[j].id.pci_addr@.contains(':'),
    ensures
        exists|d: int|
            0 <= d < ds.len() && (#[trigger] ds[d]).kind == FabricKind::XGmi && ds[d].members.contains(
                before[i].id@,
            ) && ds[d].members.contains(before[j].id@) && text::opt_text(after[i].fabric_domain) == Some(
                ds[d].id,
            ) && text::opt_text(after[j].fabric_domain) == Some(ds[d].id),
{
    let dir = before[i].device_dir@;
    let x = before[i].id@;
    let y = before[j].id@;
    let addr = before[j].id.pci_addr@;
    let rel = discover::linked(fs, before);
    let fields = scan::fields_of(list, CharClass::AsciiSpace);
    let keep = |t: Seq<char>| discover::has_colon(t);
    let c = choose|c: int| 0 <= c < addr.len() && addr[c] == ':';
    assert(CharClass::One(':').has(addr[c]));
    assert(discover::has_colon(addr));
    let peers = discover::peers_in(Some(list));
    assert(fields.filter(keep).contains(addr));
    assert(peers.contains(addr));
    let k = choose|k: int| 0 <= k < peers.len() && peers[k] == addr;
    assert(discover::xgmi_peers_of(fs, dir) == peers);
    lemma_only_at(before, j, addr);
    assert(discover::names_peer(fs, before, i, k, y));
    assert(discover::points_to(fs, before, x, y));
    assert(rel(x, y));
    let g = choose|g: int| 0 <= g < groups.len() && #[trigger] groups[g].contains(x);
    assert(graph::leads(rel, seq![x, y], x, y));
    assert(graph::connected(rel, x, y));
    assert(groups[g].contains(y));
    assert(ds[g] == discover::group_domain(groups[g]));
    lemma_group_of(fs, groups, before, i, g);
    lemma_group_of(fs, groups, before, j, g);
    assert(after[i].fabric_domain is Some && after[j].fabric_domain is Some);
}

proof fn lemma_all_alone(groups: Seq<Seq<IdModel>>, accels: Seq<Accelerator>, n: int)
    requires
        groups.len() == 0,
        discover::without_domains(accels),
        0 <= n <= accels.len(),
    ensures
        discover::single_domains(groups, accels, n).len() == n,
        forall|i: int|
            0 <= i < n ==> #[trigger] discover::single_domains(groups, accels, n)[i] == discover::single_domain(
                accels[i].id@,
            ),
    decreases n,
{
    if n > 0 {
        lemma_all_alone(groups, accels, n - 1);
        assert(discover::grouped_domain(groups, accels, n - 1) is None);
    }
}

/// Where no AMD accelerator counts xGMI links, every accelerator is by itself
/// in a PCIe domain, in the order of the accelerators, and carries its
/// identifier.
pub proof fn law_without_links_all_are_alone(
    fs: Sysfs,
    groups: Seq<Seq<IdModel>>,
    before: Seq<Accelerator>,
    after: Seq<Accelerator>,
    ds: Seq<DomainModel>,
)
    requires
        discover::wired(fs, groups, before, after, ds),
        discover::without_domains(before),
        forall|i: int|
            0 <= i < before.len() && (#[trigger] before[i]).id.vendor == Vendor::Amd && fs.devices@.contains_key(
                before[i].device_dir@,
            ) ==> !fs.devices@[before[i].device_dir@].xgmi_link_count,
    ensures
        ds.len() == before.len(),
        forall|i: int|
            0 <= i < before.len() ==> (#[trigger] ds[i]).kind == FabricKind::Pcie && ds[i].members
                == seq![before[i].id@] && text::opt_text(after[i].fabric_domain) == Some(ds[i].id),
{
    let rel = discover::linked(fs, before);
    if groups.len() > 0 {
        let x = groups[0][0];
        assert(groups[0].contains(x));
        let y = choose|y: IdModel| #[trigger] rel(x, y);
        if discover::points_to(fs, before, x, y) {
            let (i, k) = choose|i: int, k: int|
                before[i].id@ == x && #[trigger] discover::names_peer(fs, before, i, k, y);
            assert(before[i].id.vendor == Vendor::Amd);
        } else {
            let (i, k) = choose|i: int, k: int|
                before[i].id@ == y && #[trigger] discover::names_peer(fs, before, i, k, x);
            assert(before[i].id.vendor == Vendor::Amd);
        }
    }
    let n = before.len() as int;
    lemma_all_alone(groups, before, n);
    assert(ds =~= discover::single_domains(groups, before, n));
    assert forall|i: int| 0 <= i < before.len() implies (#[trigger] ds[i]).kind == FabricKind::Pcie && ds[i].members
        == seq![before[i].id@] && text::opt_text(after[i].fabric_domain) == Some(ds[i].id) by {
        assert(ds[i] == discover::single_domain(before[i].id@));
        assert(discover::grouped_domain(groups, before, i) is None);
        assert(after[i].fabric_domain is Some);
    }
}

/// Wiring changes nothing of an accelerator but its domain.
pub proof fn law_wiring_keeps_the_rest(
    fs: Sysfs,
    groups: Seq<Seq<IdModel>>,
    before: Seq<Accelerator>,
    after: Seq<Accelerator>,
    ds: Seq<DomainModel>,
    i: int,
)
    requires
        discover::wired(fs, groups, before, after, ds),
        0 <= i < before.len(),
    ensures
        after.len() == before.len(),
        after[i].fabric_domain is Some,
        after[i].id == before[i].id,
        after[i].model == before[i].model,
        after[i].memory_kind == before[i].memory_kind,
        after[i].memory_total_bytes == before[i].memory_total_bytes,
        after[i].numa_node == before[i].numa_node,
        after[i].coverage == before[i].coverage,
        after[i].partitioned == before[i].partitioned,
        after[i].device_dir == before[i].device_dir,
{
    assert(after[i] == (Accelerator { fabric_domain: after[i].fabric_domain, ..before[i] }));
}

// ---------------------------------------------------------------------
// The numbers of the accelerators
// ---------------------------------------------------------------------

/// How many of the accelerators have the property.
pub open spec fn how_many(accels: Seq<Accelerator>, keep: spec_fn(Accelerator) -> bool) -> nat {
    accels.filter(keep).len()
}

proof fn lemma_count_each(
    accels: Seq<Accelerator>,
    name: spec_fn(Accelerator) -> Seq<char>,
    keep: spec_fn(Accelerator) -> bool,
    key: Seq<char>,
)
    requires
        forall|i: int| 0 <= i < accels.len() ==> keep(#[trigger] accels[i]) == (name(accels[i]) == key),
    ensures
        ({
            let pairs = accels.map_values(|a: Accelerator| (name(a), 1nat));
            &&& labels::total(pairs, key) == how_many(accels, keep)
            &&& labels::key_among(pairs, key) == (how_many(accels, keep) > 0)
        }),
    decreases accels.len(),
{
    let pairs = accels.map_values(|a: Accelerator| (name(a), 1nat));
    if accels.len() == 0 {
        assert(accels.filter(keep) =~= Seq::empty()) by {
            reveal(Seq::filter);
        }
    } else {
        let front = accels.drop_last();
        let last = accels.last();
        let head = front.map_values(|a: Accelerator| (name(a), 1nat));
        assert forall|i: int| 0 <= i < front.len() implies keep(#[trigger] front[i]) == (name(front[i]) == key) by {
            assert(front[i] == accels[i]);
        }
        lemma_count_each(front, name, keep, key);
        assert(accels =~= front.push(last));
        sorting::lemma_filter_push(front, last, keep);
        assert(pairs.drop_last() =~= head);
        assert(keep(accels[accels.len() - 1]) == (name(last) == key));
        if labels::key_among(head, key) {
            let i = choose|i: int| 0 <= i < head.len() && (#[trigger] head[i]).0 == key;
            assert(pairs[i].0 == key);
        }
        if name(last) == key {
            assert(pairs[pairs.len() - 1].0 == key);
        }
        if labels::key_among(pairs, key) && name(last) != key {
            let i = choose|i: int| 0 <= i < pairs.len() && (#[trigger] pairs[i]).0 == key;
            assert(head[i].0 == key);
        }
    }
}

proof fn lemma_not_topology(t: NodeTopology, key: Seq<char>)
    requires
        key.len() > 5,
        key[5] == '.',
    ensures
        key != "accel-topo.lunnova.dev/block"@,
        key != "accel-topo.lunnova.dev/rack"@,
        key != "accel-topo.lunnova.dev/fabric-domains-count"@,
        !labels::count_labels(
            "accel-topo.lunnova.dev/fabric-domain."@,
            ""@,
            labels::tally(labels::domain_sizes(t.fabric_domains@)),
        ).contains_key(key),
{
    reveal_strlit("accel-topo.lunnova.dev/block");
    reveal_strlit("accel-topo.lunnova.dev/rack");
    reveal_strlit("accel-topo.lunnova.dev/fabric-domain.");
    reveal_strlit("accel-topo.lunnova.dev/fabric-domains-count");
    assert("accel-topo.lunnova.dev/block"@[5] == '-');
    assert("accel-topo.lunnova.dev/rack"@[5] == '-');
    assert("accel-topo.lunnova.dev/fabric-domains-count"@[5] == '-');
    labels::lemma_not_count_label(
        "accel-topo.lunnova.dev/fabric-domain."@,
        ""@,
        labels::tally(labels::domain_sizes(t.fabric_domains@)),
        key,
        5,
    );
}

/// What the labels say of `key` is what the counts `c` say of `name`.
spec fn counted(
    labels: Map<Seq<char>, Seq<char>>,
    key: Seq<char>,
    c: Map<Seq<char>, nat>,
    name: Seq<char>,
) -> bool {
    &&& labels.contains_key(key) == c.contains_key(name)
    &&& c.contains_key(name) ==> labels[key] == number::decimal(c[name])
}

proof fn lemma_vendor_key(t: NodeTopology, accels: Seq<Accelerator>, name: Seq<char>)
    ensures
        counted(
            labels::labels_of(t, accels),
            "accel.lunnova.dev/vendor."@ + name + ".count"@,
            labels::tally(labels::vendors(accels)),
            name,
        ),
        counted(
            labels::labels_of(t, accels),
            "accel.lunnova.dev/vendor."@ + name + ".physical-count"@,
            labels::physical_counts(accels),
            name,
        ),
{
    reveal_strlit("accel.lunnova.dev/vendor.");
    reveal_strlit("accel.lunnova.dev/model.");
    reveal_strlit("accel.lunnova.dev/memory-kind.");
    reveal_strlit("accel.lunnova.dev/total-count");
    reveal_strlit(".count");
    reveal_strlit(".physical-count");
    let prefix = "accel.lunnova.dev/vendor."@;
    let a = prefix + name + ".count"@;
    let b = prefix + name + ".physical-count"@;
    let all = labels::tally(labels::vendors(accels));
    let physical = labels::physical_counts(accels);
    let models = labels::tally(labels::model_slugs(accels));
    let kinds = labels::tally(labels::memory_kinds(accels));
    assert(a[5] == prefix[5] && a[18] == prefix[18]);
    assert(b[5] == prefix[5] && b[18] == prefix[18]);
    lemma_not_topology(t, a);
    lemma_not_topology(t, b);
    labels::lemma_not_count_label("accel.lunnova.dev/model."@, ".count"@, models, a, 18);
    labels::lemma_not_count_label("accel.lunnova.dev/model."@, ".count"@, models, b, 18);
    labels::lemma_not_count_label("accel.lunnova.dev/memory-kind."@, ".count"@, kinds, a, 18);
    labels::lemma_not_count_label("accel.lunnova.dev/memory-kind."@, ".count"@, kinds, b, 18);
    assert(a[18] != "accel.lunnova.dev/total-count"@[18]);
    assert(b[18] != "accel.lunnova.dev/total-count"@[18]);
    assert(!labels::count_labels(prefix, ".physical-count"@, physical).contains_key(a)) by {
        if labels::count_labels(prefix, ".physical-count"@, physical).contains_key(a) {
            let m = choose|m: Seq<char>| physical.contains_key(m) && a == #[trigger] (prefix + m + ".physical-count"@);
            let other = prefix + m + ".physical-count"@;
            assert(a[a.len() - 6] == ".count"@[0]);
            assert(other[other.len() - 6] == ".physical-count"@[9]);
        }
    }
    assert(!labels::count_labels(prefix, ".count"@, all).contains_key(b)) by {
        if labels::count_labels(prefix, ".count"@, all).contains_key(b) {
            let m = choose|m: Seq<char>| all.contains_key(m) && b == #[trigger] (prefix + m + ".count"@);
            let other = prefix + m + ".count"@;
            assert(b[b.len() - 6] == ".physical-count"@[9]);
            assert(other[other.len() - 6] == ".count"@[0]);
        }
    }
    labels::lemma_count_label(prefix, ".count"@, all, name);
    labels::lemma_count_label(prefix, ".physical-count"@, physical, name);
}

proof fn lemma_model_key(t: NodeTopology, accels: Seq<Accelerator>, name: Seq<char>)
    ensures
        counted(
            labels::labels_of(t, accels),
            "accel.lunnova.dev/model."@ + name + ".count"@,
            labels::tally(labels::model_slugs(accels)),
            name,
        ),
        counted(
            labels::labels_of(t, accels),
            "accel.lunnova.dev/memory-kind."@ + name + ".count"@,
            labels::tally(labels::memory_kinds(accels)),
            name,
        ),
{
    reveal_strlit("accel.lunnova.dev/vendor.");
    reveal_strlit("accel.lunnova.dev/model.");
    reveal_strlit("accel.lunnova.dev/memory-kind.");
    reveal_strlit("accel.lunnova.dev/total-count");
    let prefix = "accel.lunnova.dev/model."@;
    let memory = "accel.lunnova.dev/memory-kind."@;
    let vendor = "accel.lunnova.dev/vendor."@;
    let a = prefix + name + ".count"@;
    let b = memory + name + ".count"@;
    let vendors = labels::tally(labels::vendors(accels));
    let physical = labels::physical_counts(accels);
    let models = labels::tally(labels::model_slugs(accels));
    let kinds = labels::tally(labels::memory_kinds(accels));
    assert(a[5] == prefix[5] && a[18] == prefix[18] && a[19] == prefix[19]);
    assert(b[5] == memory[5] && b[18] == memory[18] && b[19] == memory[19]);
    lemma_not_topology(t, a);
    lemma_not_topology(t, b);
    labels::lemma_not_count_label(vendor, ".count"@, vendors, a, 18);
    labels::lemma_not_count_label(vendor, ".count"@, vendors, b, 18);
    labels::lemma_not_count_label(vendor, ".physical-count"@, physical, a, 18);
    labels::lemma_not_count_label(vendor, ".physical-count"@, physical, b, 18);
    labels::lemma_not_count_label(memory, ".count"@, kinds, a, 19);
    labels::lemma_not_count_label(prefix, ".count"@, models, b, 19);
    assert(a[18] != "accel.lunnova.dev/total-count"@[18]);
    assert(b[18] != "accel.lunnova.dev/total-count"@[18]);
    labels::lemma_count_label(prefix, ".count"@, models, name);
    labels::lemma_count_label(memory, ".count"@, kinds, name);
}

/// Different vendors have different names.
pub proof fn law_vendor_names_differ(v: Vendor, w: Vendor)
    ensures
        v.name() == w.name() <==> v == w,
{
    reveal_strlit("amd");
    reveal_strlit("nvidia");
    reveal_strlit("intel");
    reveal_strlit("other");
    assert("amd"@[0] == 'a' && "nvidia"@[0] == 'n' && "intel"@[0] == 'i' && "other"@[0] == 'o');
}

/// Different kinds of memory have different names.
pub proof fn law_memory_names_differ(v: MemoryKind, w: MemoryKind)
    ensures
        v.name() == w.name() <==> v == w,
{
    reveal_strlit("dedicated");
    reveal_strlit("unified");
    reveal_strlit("shared");
    reveal_strlit("unknown");
    assert("dedicated"@[0] == 'd' && "unified"@[0] == 'u' && "shared"@[0] == 's' && "unknown"@[0] == 'u');
    assert("unified"@[2] == 'i' && "unknown"@[2] == 'k');
}

/// The labels of a node say how many accelerators it has, and how many of
/// each vendor, each of which has a label of its own.
pub proof fn law_accelerators_are_counted(t: NodeTopology, accels: Seq<Accelerator>)
    ensures
        says(labels::labels_of(t, accels), "accel.lunnova.dev/total-count"@, accels.len()),
        says_any(
            labels::labels_of(t, accels),
            "accel.lunnova.dev/vendor."@ + "amd"@ + ".count"@,
            how_many(accels, |a: Accelerator| a.id.vendor == Vendor::Amd),
        ),
        says_any(
            labels::labels_of(t, accels),
            "accel.lunnova.dev/vendor."@ + "nvidia"@ + ".count"@,
            how_many(accels, |a: Accelerator| a.id.vendor == Vendor::Nvidia),
        ),
        says_any(
            labels::labels_of(t, accels),
            "accel.lunnova.dev/vendor."@ + "intel"@ + ".count"@,
            how_many(accels, |a: Accelerator| a.id.vendor == Vendor::Intel),
        ),
        says_any(
            labels::labels_of(t, accels),
            "accel.lunnova.dev/vendor."@ + "other"@ + ".count"@,
            how_many(accels, |a: Accelerator| a.id.vendor == Vendor::Other),
        ),
{
    lemma_numeral(accels.len());
    lemma_vendor_counted(t, accels, Vendor::Amd, |a: Accelerator| a.id.vendor == Vendor::Amd);
    lemma_vendor_counted(t, accels, Vendor::Nvidia, |a: Accelerator| a.id.vendor == Vendor::Nvidia);
    lemma_vendor_counted(t, accels, Vendor::Intel, |a: Accelerator| a.id.vendor == Vendor::Intel);
    lemma_vendor_counted(t, accels, Vendor::Other, |a: Accelerator| a.id.vendor == Vendor::Other);
}

proof fn lemma_vendor_counted(
    t: NodeTopology,
    accels: Seq<Accelerator>,
    v: Vendor,
    keep: spec_fn(Accelerator) -> bool,
)
    requires
        forall|a: Accelerator| #[trigger] keep(a) == (a.id.vendor == v),
    ensures
        says_any(
            labels::labels_of(t, accels),
            "accel.lunnova.dev/vendor."@ + v.name() + ".count"@,
            how_many(accels, keep),
        ),
{
    let name = |a: Accelerator| a.id.vendor.name();
    assert forall|i: int| 0 <= i < accels.len() implies keep(#[trigger] accels[i]) == (name(accels[i]) == v.name()) by {
        law_vendor_names_differ(accels[i].id.vendor, v);
    }
    lemma_count_each(accels, name, keep, v.name());
    assert(labels::vendors(accels) =~= accels.map_values(|a: Accelerator| (name(a), 1nat)));
    lemma_vendor_key(t, accels, v.name());
    lemma_numeral(how_many(accels, keep));
}

/// The label of a model says how many accelerators have a model with that
/// slug.
pub proof fn law_models_are_counted(t: NodeTopology, accels: Seq<Accelerator>, slug: Seq<char>)
    ensures
        says_any(
            labels::labels_of(t, accels),
            "accel.lunnova.dev/model."@ + slug + ".count"@,
            how_many(accels, |a: Accelerator| labels::label_slug(a.model@) == slug),
        ),
{
    let name = |a: Accelerator| labels::label_slug(a.model@);
    let keep = |a: Accelerator| labels::label_slug(a.model@) == slug;
    lemma_count_each(accels, name, keep, slug);
    assert(labels::model_slugs(accels) =~= accels.map_values(|a: Accelerator| (name(a), 1nat)));
    lemma_model_key(t, accels, slug);
    lemma_numeral(how_many(accels, keep));
}

/// The label of a kind of memory says how many accelerators have that kind.
pub proof fn law_memory_kinds_are_counted(t: NodeTopology, accels: Seq<Accelerator>, k: MemoryKind)
    ensures
        says_any(
            labels::labels_of(t, accels),
            "accel.lunnova.dev/memory-kind."@ + k.name() + ".count"@,
            how_many(accels, |a: Accelerator| a.memory_kind == k),
        ),
{
    let name = |a: Accelerator| a.memory_kind.name();
    let keep = |a: Accelerator| a.memory_kind == k;
    assert forall|i: int| 0 <= i < accels.len() implies keep(#[trigger] accels[i]) == (name(accels[i]) == k.name()) by {
        law_memory_names_differ(accels[i].memory_kind, k);
    }
    lemma_count_each(accels, name, keep, k.name());
    assert(labels::memory_kinds(accels) =~= accels.map_values(|a: Accelerator| (name(a), 1nat)));
    lemma_model_key(t, accels, k.name());
    lemma_numeral(how_many(accels, keep));
}

/// The directories above the devices of a vendor.
pub open spec fn parents_of(accels: Seq<Accelerator>, v: Vendor) -> Set<paths::PathModel> {
    Set::new(
        |p: paths::PathModel|
            exists|i: int|
                0 <= i < accels.len() && (#[trigger] accels[i]).id.vendor == v && paths::parent_of(
                    accels[i].device_dir@,
                ) == Some(p),
    )
}

proof fn lemma_parents(accels: Seq<Accelerator>, v: Vendor)
    ensures
        labels::vendor_parents(accels, v.name()).to_set() == parents_of(accels, v),
    decreases accels.len(),
{
    let s = labels::vendor_parents(accels, v.name());
    let want = parents_of(accels, v);
    if accels.len() == 0 {
        assert(s.to_set() =~= want);
    } else {
        let front = accels.drop_last();
        let last = accels.last();
        let head = labels::vendor_parents(front, v.name());
        lemma_parents(front, v);
        law_vendor_names_differ(last.id.vendor, v);
        assert(last == accels[accels.len() - 1]);
        assert forall|p: paths::PathModel| s.to_set().contains(p) == want.contains(p) by {
            if s.contains(p) {
                let i = choose|i: int| 0 <= i < s.len() && s[i] == p;
                if i < head.len() {
                    assert(head[i] == p);
                    assert(head.to_set().contains(p));
                    assert(parents_of(front, v).contains(p));
                    let j = choose|j: int|
                        0 <= j < front.len() && (#[trigger] front[j]).id.vendor == v && paths::parent_of(
                            front[j].device_dir@,
                        ) == Some(p);
                    assert(accels[j] == front[j]);
                }
            }
            if want.contains(p) {
                let j = choose|j: int|
                    0 <= j < accels.len() && (#[trigger] accels[j]).id.vendor == v && paths::parent_of(
                        accels[j].device_dir@,
                    ) == Some(p);
                if j < front.len() {
                    assert(front[j] == accels[j]);
                    assert(parents_of(front, v).contains(p));
                    assert(head.contains(p));
                    let i = choose|i: int| 0 <= i < head.len() && head[i] == p;
                    assert(s[i] == p);
                } else {
                    assert(s == head.push(p));
                    assert(s[head.len() as int] == p);
                }
            }
        }
        assert(s.to_set() =~= want);
    }
}

/// The label of a vendor's physical accelerators says how many different
/// directories stand above the devices of its accelerators: partitions of
/// one card count once.
pub proof fn law_physical_cards_are_counted(t: NodeTopology, accels: Seq<Accelerator>, v: Vendor)
    ensures
        parents_of(accels, v).finite(),
        says_any(
            labels::labels_of(t, accels),
            "accel.lunnova.dev/vendor."@ + v.name() + ".physical-count"@,
            parents_of(accels, v).len(),
        ),
{
    let s = labels::vendor_parents(accels, v.name());
    lemma_parents(accels, v);
    vstd::seq_lib::seq_to_set_is_finite(s);
    if s.len() > 0 {
        assert(s.contains(s[0]));
        assert(s.to_set().contains(s[0]));
        if s.to_set().len() == 0 {
            assert(s.to_set() =~= Set::empty());
        }
    } else {
        assert(s.to_set() =~= Set::empty());
    }
    lemma_vendor_key(t, accels, v.name());
    lemma_numeral(parents_of(accels, v).len());
}

/// The entry of an accelerator in the inventory says of each thing what the
/// accelerator holds of it.
pub proof fn law_inventory_entry(e: InventoryEntry, a: Accelerator)
    requires
        e.tells_of(a),
    ensures
        e.vendor@ == a.id.vendor.name(),
        e.model@ == a.model@,
        e.memory_kind@ == a.memory_kind.name(),
        e.memory_total_bytes == a.memory_total_bytes,
        text::opt_text(e.fabric_domain) == text::opt_text(a.fabric_domain),
        e.numa_node == a.numa_node,
        e.accel_index == a.id.drm_index,
        e.pci_addr@ == a.id.pci_addr@,
        e.coverage@ == a.coverage.name(),
        e.partitioned == a.partitioned,
{
}

// ---------------------------------------------------------------------
// RDMA devices
// ---------------------------------------------------------------------

/// What a file holds without white space around it.
pub open spec fn written_in(e: PortEntry, file: Seq<char>) -> Seq<char> {
    match common::content(e.files, file) {
        Some(s) => scan::trim_space(s),
        None => Seq::empty(),
    }
}

/// The words that a file holds.
pub open spec fn words_in(e: PortEntry, file: Seq<char>) -> Seq<Seq<char>> {
    scan::fields_of(written_in(e, file), CharClass::Space)
}

proof fn lemma_no_words(k: CharClass)
    ensures
        scan::fields_of(Seq::empty(), k).len() == 0,
{
}

/// A port is read from its own directory: its number is the directory's
/// name, its states are the last words of `state` and `phys_state`, its link
/// layer is what `link_layer` holds, and its rate the number that `rate`
/// begins with.
pub proof fn law_port_is_read(e: PortEntry)
    ensures
        ({
            let index = number::bounded_of(e.name@, 10, u32::MAX as nat);
            let state = words_in(e, "state"@);
            let phys = words_in(e, "phys_state"@);
            let rate = words_in(e, "rate"@);
            match rdma::port_of(e) {
                Some(p) => {
                    &&& index == Some(p.index)
                    &&& state.len() > 0 ==> p.state == state[state.len() - 1]
                    &&& state.len() == 0 ==> p.state.len() == 0
                    &&& phys.len() > 0 ==> p.phys_state == phys[phys.len() - 1]
                    &&& phys.len() == 0 ==> p.phys_state.len() == 0
                    &&& p.link_layer == written_in(e, "link_layer"@)
                    &&& rate.len() > 0 ==> p.rate_gbps == number::bounded_of(rate[0], 10, u32::MAX as nat)
                    &&& rate.len() == 0 ==> p.rate_gbps is None
                },
                None => index is None,
            }
        }),
{
    lemma_no_words(CharClass::Space);
    if written_in(e, "state"@).len() == 0 {
        assert(written_in(e, "state"@) =~= Seq::empty());
    }
    if written_in(e, "phys_state"@).len() == 0 {
        assert(written_in(e, "phys_state"@) =~= Seq::empty());
    }
    if written_in(e, "link_layer"@).len() == 0 {
        assert(written_in(e, "link_layer"@) =~= Seq::empty());
    }
    if written_in(e, "rate"@).len() == 0 {
        assert(written_in(e, "rate"@) =~= Seq::empty());
    }
}

proof fn lemma_found_ports(entries: Seq<PortEntry>, p: PortModel)
    ensures
        rdma::found_ports(entries).contains(p) <==> exists|i: int|
            0 <= i < entries.len() && rdma::port_of(#[trigger] entries[i]) == Some(p),
    decreases entries.len(),
{
    let all = rdma::found_ports(entries);
    if entries.len() > 0 {
        let front = entries.drop_last();
        let head = rdma::found_ports(front);
        lemma_found_ports(front, p);
        if head.contains(p) {
            let i = choose|i: int| 0 <= i < front.len() && rdma::port_of(#[trigger] front[i]) == Some(p);
            assert(entries[i] == front[i]);
            let k = choose|k: int| 0 <= k < head.len() && head[k] == p;
            assert(all[k] == p);
        }
        if rdma::port_of(entries.last()) == Some(p) {
            assert(all[head.len() as int] == p);
            assert(entries[entries.len() - 1] == entries.last());
        }
        if all.contains(p) && !head.contains(p) {
            let k = choose|k: int| 0 <= k < all.len() && all[k] == p;
            if k < head.len() {
                assert(head[k] == p);
            }
        }
        if exists|i: int| 0 <= i < entries.len() && rdma::port_of(#[trigger] entries[i]) == Some(p) {
            let i = choose|i: int| 0 <= i < entries.len() && rdma::port_of(#[trigger] entries[i]) == Some(p);
            if i < front.len() {
                assert(front[i] == entries[i]);
            }
        }
    }
}

/// The ports of a device are those that its directories tell of, by rising
/// number.
pub proof fn law_ports_of_a_device(e: DeviceEntry, p: PortModel, i: int, j: int)
    ensures
        rdma::device_of(e).name == e.name@,
        rdma::device_of(e).ports.contains(p) <==> exists|k: int|
            0 <= k < e.ports@.len() && rdma::port_of(#[trigger] e.ports@[k]) == Some(p),
        0 <= i < j < rdma::device_of(e).ports.len() ==> rdma::device_of(e).ports[i].index
            <= rdma::device_of(e).ports[j].index,
{
    let found = rdma::found_ports(e.ports@);
    lemma_found_ports(e.ports@, p);
    sorting::lemma_arranged_contains(found, rdma::port_before(), p);
    assert(sorting::is_ranking(rdma::port_before()));
    sorting::lemma_arranged_in_order(found, rdma::port_before());
    if 0 <= i < j < rdma::device_of(e).ports.len() {
        assert(!rdma::port_before()(rdma::ports_of(e.ports@)[j], rdma::ports_of(e.ports@)[i]));
    }
}

/// The devices of a node are those that its directories tell of, by name.
pub proof fn law_devices_of_a_node(entries: Seq<DeviceEntry>, found: Seq<DeviceModel>, d: DeviceModel, i: int, j: int)
    requires
        found == sorting::arranged(
            entries.map_values(|e: DeviceEntry| rdma::device_of(e)),
            rdma::device_before(),
        ),
    ensures
        found.len() == entries.len(),
        found.contains(d) <==> exists|k: int| 0 <= k < entries.len() && rdma::device_of(#[trigger] entries[k]) == d,
        0 <= i < j < found.len() ==> !text::text_lt(found[j].name, found[i].name),
{
    let all = entries.map_values(|e: DeviceEntry| rdma::device_of(e));
    let before = rdma::device_before();
    sorting::lemma_arranged_same_elements(all, before);
    sorting::lemma_arranged_contains(all, before, d);
    if all.contains(d) {
        let k = choose|k: int| 0 <= k < all.len() && all[k] == d;
        assert(rdma::device_of(entries[k]) == d);
    }
    if exists|k: int| 0 <= k < entries.len() && rdma::device_of(#[trigger] entries[k]) == d {
        let k = choose|k: int| 0 <= k < entries.len() && rdma::device_of(#[trigger] entries[k]) == d;
        assert(all[k] == d);
    }
    assert(sorting::is_ranking(before)) by {
        assert forall|a: DeviceModel, b: DeviceModel| #[trigger] before(a, b) implies !before(b, a) by {
            text::lemma_text_lt_asymmetric(a.name, b.name);
        }
        assert forall|a: DeviceModel, b: DeviceModel, c: DeviceModel|
            !(#[trigger] before(a, b)) && !(#[trigger] before(b, c)) implies !before(a, c) by {
            text::lemma_text_lt_total(a.name, b.name);
            text::lemma_text_lt_total(b.name, c.name);
            if text::text_lt(a.name, c.name) {
                if text::text_lt(c.name, b.name) {
                    text::lemma_text_lt_transitive(a.name, c.name, b.name);
                }
            }
        }
    }
    sorting::lemma_arranged_in_order(all, before);
    if 0 <= i < j < found.len() {
        assert(!before(found[j], found[i]));
    }
}

/// A node says that it has RDMA if one of its ports is active and its link
/// layer is Ethernet, in whatever case, and otherwise says nothing of it.
pub proof fn law_rdma_is_published(base: Map<Seq<char>, Seq<char>>, devices: Seq<RdmaDevice>, key: Seq<char>)
    ensures
        ({
            let labels = labels::rdma_labels(base, devices);
            let there = exists|d: int, p: int|
                0 <= d < devices.len() && 0 <= p < devices[d].ports@.len() && scan::lower_text(
                    (#[trigger] devices[d].ports@[p]).state@,
                ) == "active"@ && scan::lower_text(devices[d].ports@[p].link_layer@) == "ethernet"@;
            &&& there ==> labels.contains_key("accel-net.lunnova.dev/rdma"@)
                && labels["accel-net.lunnova.dev/rdma"@] == "present"@
            &&& !there ==> labels == base
            &&& key != "accel-net.lunnova.dev/rdma"@ ==> (labels.contains_key(key) <==> base.contains_key(key)) && (
            base.contains_key(key) ==> labels[key] == base[key])
        }),
{
    reveal_strlit("ACTIVE");
    reveal_strlit("active");
    reveal_strlit("Ethernet");
    reveal_strlit("ethernet");
    assert(scan::lower_text("ACTIVE"@) =~= "active"@);
    assert(scan::lower_text("Ethernet"@) =~= "ethernet"@);
    if rdma::has_active_roce(devices) {
        let (d, p) = choose|d: int, p: int|
            0 <= d < devices.len() && 0 <= p < devices[d].ports@.len() && rdma::is_active_roce(
                (#[trigger] devices[d].ports@[p])@,
            );
        assert(scan::lower_text(devices[d].ports@[p].state@) == "active"@);
    }
    if exists|d: int, p: int|
        0 <= d < devices.len() && 0 <= p < devices[d].ports@.len() && scan::lower_text(
            (#[trigger] devices[d].ports@[p]).state@,
        ) == "active"@ && scan::lower_text(devices[d].ports@[p].link_layer@) == "ethernet"@ {
        let (d, p) = choose|d: int, p: int|
            0 <= d < devices.len() && 0 <= p < devices[d].ports@.len() && scan::lower_text(
                (#[trigger] devices[d].ports@[p]).state@,
            ) == "active"@ && scan::lower_text(devices[d].ports@[p].link_layer@) == "ethernet"@;
        assert(rdma::is_active_roce(devices[d].ports@[p]@));
    }
}

// ---------------------------------------------------------------------
// Annotations
// ---------------------------------------------------------------------

/// The inventory, the fabric and the RDMA devices are each annotated under
/// their own key, where their text could be made.
pub proof fn law_annotations_of_a_node(
    inventory: Option<Seq<char>>,
    fabric: Option<Seq<char>>,
    rdma: Option<Seq<char>>,
    key: Seq<char>,
)
    ensures
        ({
            let all = labels::rdma_annotations(labels::annotations_of(inventory, fabric), rdma);
            let said = if all.contains_key(key) {
                Some(all[key])
            } else {
                None
            };
            &&& key == "accel.lunnova.dev/inventory"@ ==> said == inventory
            &&& key == "accel.lunnova.dev/fabric-graph"@ ==> said == fabric
            &&& key == "accel-net.lunnova.dev/rdma-inventory"@ ==> said == rdma
            &&& said is Some ==> key == "accel.lunnova.dev/inventory"@ || key == "accel.lunnova.dev/fabric-graph"@
                || key == "accel-net.lunnova.dev/rdma-inventory"@
        }),
{
    reveal_strlit("accel.lunnova.dev/inventory");
    reveal_strlit("accel.lunnova.dev/fabric-graph");
    reveal_strlit("accel-net.lunnova.dev/rdma-inventory");
    assert("accel.lunnova.dev/inventory"@[18] != "accel.lunnova.dev/fabric-graph"@[18]);
    assert("accel-net.lunnova.dev/rdma-inventory"@[5] != "accel.lunnova.dev/fabric-graph"@[5]);
    assert("accel-net.lunnova.dev/rdma-inventory"@[5] != "accel.lunnova.dev/inventory"@[5]);
}

/// The block and the rack of a node stand in its labels as they are, and
/// only where they are known.
pub proof fn law_place_is_labelled(t: NodeTopology, accels: Seq<Accelerator>)
    ensures
        ({
            let all = labels::labels_of(t, accels);
            let block = "accel-topo.lunnova.dev/block"@;
            let rack = "accel-topo.lunnova.dev/rack"@;
            &&& t.block is Some <==> all.contains_key(block)
            &&& t.block matches Some(s) ==> all[block] == s@
            &&& t.rack is Some <==> all.contains_key(rack)
            &&& t.rack matches Some(s) ==> all[rack] == s@
        }),
{
    lemma_place_key(t, accels, "accel-topo.lunnova.dev/block"@);
    lemma_place_key(t, accels, "accel-topo.lunnova.dev/rack"@);
    reveal_strlit("accel-topo.lunnova.dev/block");
    reveal_strlit("accel-topo.lunnova.dev/rack");
    assert("accel-topo.lunnova.dev/block"@[23] != "accel-topo.lunnova.dev/rack"@[23]);
}

proof fn lemma_place_key(t: NodeTopology, accels: Seq<Accelerator>, key: Seq<char>)
    requires
        key == "accel-topo.lunnova.dev/block"@ || key == "accel-topo.lunnova.dev/rack"@,
    ensures
        ({
            let place = labels::with_opt(
                labels::with_opt(Map::empty(), "accel-topo.lunnova.dev/block"@, text::opt_text(t.block)),
                "accel-topo.lunnova.dev/rack"@,
                text::opt_text(t.rack),
            );
            let all = labels::labels_of(t, accels);
            &&& all.contains_key(key) == place.contains_key(key)
            &&& place.contains_key(key) ==> all[key] == place[key]
        }),
{
    reveal_strlit("accel-topo.lunnova.dev/block");
    reveal_strlit("accel-topo.lunnova.dev/rack");
    reveal_strlit("accel-topo.lunnova.dev/fabric-domain.");
    reveal_strlit("accel-topo.lunnova.dev/fabric-domains-count");
    reveal_strlit("accel.lunnova.dev/vendor.");
    reveal_strlit("accel.lunnova.dev/model.");
    reveal_strlit("accel.lunnova.dev/memory-kind.");
    reveal_strlit("accel.lunnova.dev/total-count");
    assert(key[5] == '-' && key[23] != 'f');
    assert("accel-topo.lunnova.dev/fabric-domains-count"@[23] == 'f');
    assert("accel.lunnova.dev/total-count"@[5] == '.');
    labels::lemma_not_count_label(
        "accel-topo.lunnova.dev/fabric-domain."@,
        ""@,
        labels::tally(labels::domain_sizes(t.fabric_domains@)),
        key,
        23,
    );
    let vendors = labels::tally(labels::vendors(accels));
    let models = labels::tally(labels::model_slugs(accels));
    let kinds = labels::tally(labels::memory_kinds(accels));
    let physical = labels::physical_counts(accels);
    labels::lemma_not_count_label("accel.lunnova.dev/vendor."@, ".count"@, vendors, key, 5);
    labels::lemma_not_count_label("accel.lunnova.dev/model."@, ".count"@, models, key, 5);
    labels::lemma_not_count_label("accel.lunnova.dev/memory-kind."@, ".count"@, kinds, key, 5);
    labels::lemma_not_count_label("accel.lunnova.dev/vendor."@, ".physical-count"@, physical, key, 5);
}

// ---------------------------------------------------------------------
// Neighbours
// ---------------------------------------------------------------------

/// A triple on the wire: seven bits of kind and nine of length, then the
/// value.
pub open spec fn wire(kind: nat, value: Seq<u8>) -> Seq<u8> {
    seq![(kind * 2 + value.len() / 256) as u8, (value.len() % 256) as u8] + value
}

/// A kind and a value that fit a triple.
pub open spec fn fits(kind: nat, value: Seq<u8>) -> bool {
    0 < kind < 128 && value.len() < 512
}

/// A triple on the wire is read as the kind and the value that it was made
/// of, and reading goes on behind it.
pub proof fn law_triple_is_read(kind: nat, value: Seq<u8>, rest: Seq<u8>)
    requires
        fits(kind, value),
    ensures
        lldp::tlvs(wire(kind, value) + rest) == seq![Tlv { kind: kind as int, value }] + lldp::tlvs(rest),
{
    let buf = wire(kind, value) + rest;
    let n = value.len();
    let hi = kind * 2 + n / 256;
    assert(n / 256 < 2 && hi < 256);
    assert(buf[0] == hi && buf[1] == n % 256);
    assert((buf[0] / 2) as int == kind);
    assert(buf[0] % 2 == n / 256);
    assert(lldp::tlv_len(buf[0], buf[1]) == n);
    assert(buf.subrange(2, 2 + n as int) =~= value);
    assert(buf.skip(2 + n as int) =~= rest);
}

proof fn lemma_frame(chassis: Seq<u8>, port: Seq<u8>, name: Seq<u8>, rest: Seq<u8>)
    requires
        fits(1, chassis),
        fits(2, port),
        fits(5, name),
    ensures
        ({
            let buf = wire(1, chassis) + (wire(2, port) + (wire(5, name) + (seq![0u8, 0u8] + rest)));
            let t = lldp::tlvs(buf);
            &&& lldp::last_value(t, 1) == Some(chassis)
            &&& lldp::last_value(t, 2) == Some(port)
            &&& lldp::last_value(t, 5) == Some(name)
        }),
{
    let end = seq![0u8, 0u8] + rest;
    let c = wire(5, name) + end;
    let b = wire(2, port) + c;
    law_triple_is_read(1, chassis, b);
    law_triple_is_read(2, port, c);
    law_triple_is_read(5, name, end);
    assert(lldp::tlvs(end) =~= Seq::<Tlv>::empty());
    let none = Seq::<Tlv>::empty();
    let x = Tlv { kind: 1, value: chassis };
    let y = Tlv { kind: 2, value: port };
    let z = Tlv { kind: 5, value: name };
    assert(lldp::tlvs(wire(1, chassis) + b) =~= none.push(x).push(y).push(z));
    lldp::lemma_last_value_push(none.push(x).push(y), z, 1);
    lldp::lemma_last_value_push(none.push(x).push(y), z, 2);
    lldp::lemma_last_value_push(none.push(x).push(y), z, 5);
    lldp::lemma_last_value_push(none.push(x), y, 1);
    lldp::lemma_last_value_push(none.push(x), y, 2);
    lldp::lemma_last_value_push(none, x, 1);
}

/// A frame with a chassis, a port and a name announces them: the chassis by
/// name where its identifier is a name, the port by name where its
/// identifier is one, and the system's name as it is.
pub proof fn law_frame_with_names(
    chassis: Seq<u8>,
    port: Seq<u8>,
    name: Seq<u8>,
    rest: Seq<u8>,
    interface: Seq<char>,
)
    requires
        fits(1, chassis),
        fits(2, port),
        fits(5, name),
        chassis.len() > 1 && (chassis[0] == 6 || chassis[0] == 7),
        port.len() > 1 && (port[0] == 5 || port[0] == 6 || port[0] == 7),
        utf8::valid_utf8(chassis.drop_first()),
        utf8::valid_utf8(port.drop_first()),
        utf8::valid_utf8(name),
        utf8::decode_utf8(chassis.drop_first()).len() > 0,
        utf8::decode_utf8(name).len() > 0,
    ensures
        ({
            let buf = wire(1, chassis) + (wire(2, port) + (wire(5, name) + (seq![0u8, 0u8] + rest)));
            lldp::neighbor_of(buf, interface) == Some(
                NeighborModel {
                    interface,
                    chassis_id: utf8::decode_utf8(chassis.drop_first()),
                    chassis_id_kind: ChassisIdKind::Name,
                    port_id: utf8::decode_utf8(port.drop_first()),
                    system_name: Some(utf8::decode_utf8(name)),
                },
            )
        }),
{
    lemma_frame(chassis, port, name, rest);
}

/// The pair with index `i` in the text is the two digits of the byte, behind
/// a colon unless it is the first.
pub open spec fn is_pair_at(s: Seq<char>, i: int, b: u8) -> bool {
    &&& i > 0 ==> s[3 * i - 1] == ':'
    &&& number::digit_of(s[3 * i], 16) == Some((b / 16) as nat)
    &&& number::digit_of(s[3 * i + 1], 16) == Some((b % 16) as nat)
}

/// The text is the bytes as pairs of hexadecimal digits with colons between
/// them.
pub open spec fn is_mac_text(s: Seq<char>, b: Seq<u8>) -> bool {
    &&& s.len() == 3 * b.len() - 1
    &&& forall|i: int| 0 <= i < b.len() ==> #[trigger] is_pair_at(s, i, b[i])
}

proof fn lemma_byte_digits(b: u8)
    ensures
        lldp::byte_hex(b).len() == 2,
        number::digit_of(lldp::byte_hex(b)[0], 16) == Some((b / 16) as nat),
        number::digit_of(lldp::byte_hex(b)[1], 16) == Some((b % 16) as nat),
{
    reveal_with_fuel(number::numeral, 3);
    reveal_with_fuel(number::zero_padded, 3);
    let h = number::hex(b as nat);
    assert(b < 16 ==> h.len() == 1);
    assert(b >= 16 ==> (b as nat) / 16 < 16 && h.len() == 2);
}

proof fn lemma_mac_text(b: Seq<u8>)
    requires
        b.len() > 0,
    ensures
        is_mac_text(lldp::bytes_colon_hex(b), b),
    decreases b.len(),
{
    let parts = b.map_values(|x: u8| lldp::byte_hex(x));
    let s = lldp::bytes_colon_hex(b);
    let front = b.drop_last();
    let h = lldp::byte_hex(b.last());
    lemma_byte_digits(b.last());
    assert(parts.drop_last() =~= front.map_values(|x: u8| lldp::byte_hex(x)));
    assert(parts.last() == h);
    if b.len() == 1 {
        assert(s == h);
        assert(is_pair_at(s, 0, b[0]));
    } else {
        lemma_mac_text(front);
        let t = lldp::bytes_colon_hex(front);
        assert(s == t + seq![':'] + h);
        assert forall|i: int| 0 <= i < b.len() implies #[trigger] is_pair_at(s, i, b[i]) by {
            if i < front.len() {
                assert(is_pair_at(t, i, front[i]));
                assert(s[3 * i] == t[3 * i] && s[3 * i + 1] == t[3 * i + 1]);
                if i > 0 {
                    assert(s[3 * i - 1] == t[3 * i - 1]);
                }
            } else {
                assert(s[3 * i - 1] == ':' && s[3 * i] == h[0] && s[3 * i + 1] == h[1]);
            }
        }
    }
}

/// A frame whose chassis and port are MAC addresses announces both as such,
/// the one as the chassis and the other as the port.
pub proof fn law_frame_with_addresses(
    chassis: Seq<u8>,
    port: Seq<u8>,
    name: Seq<u8>,
    rest: Seq<u8>,
    interface: Seq<char>,
)
    requires
        fits(5, name),
        chassis.len() == 7 && chassis[0] == 4,
        port.len() == 7 && port[0] == 3,
    ensures
        ({
            let buf = wire(1, chassis) + (wire(2, port) + (wire(5, name) + (seq![0u8, 0u8] + rest)));
            match lldp::neighbor_of(buf, interface) {
                Some(n) => {
                    &&& n.interface == interface
                    &&& n.chassis_id_kind == ChassisIdKind::Mac
                    &&& is_mac_text(n.chassis_id, chassis.drop_first())
                    &&& is_mac_text(n.port_id, port.drop_first())
                    &&& name.len() == 0 ==> n.system_name is None
                },
                None => false,
            }
        }),
{
    lemma_frame(chassis, port, name, rest);
    lemma_mac_text(chassis.drop_first());
    lemma_mac_text(port.drop_first());
    if name.len() == 0 {
        assert(name =~= Seq::<u8>::empty());
    }
}

/// A frame without a chassis or without a port announces nothing.
pub proof fn law_frame_needs_both(kind: nat, value: Seq<u8>, interface: Seq<char>)
    requires
        fits(kind, value),
    ensures
        lldp::neighbor_of(wire(kind, value), interface) is None,
        lldp::neighbor_of(Seq::empty(), interface) is None,
{
    let none = Seq::<Tlv>::empty();
    let x = Tlv { kind: kind as int, value };
    law_triple_is_read(kind, value, Seq::empty());
    assert(wire(kind, value) + Seq::<u8>::empty() =~= wire(kind, value));
    assert(lldp::tlvs(Seq::empty()) =~= none);
    assert(lldp::tlvs(wire(kind, value)) =~= none.push(x));
    lldp::lemma_last_value_push(none, x, 1);
    lldp::lemma_last_value_push(none, x, 2);
}

/// Frames are asked for on an interface that is up, or not known to be down,
/// and that is neither the loopback nor a container's.
pub proof fn law_where_frames_are_asked_for(name: Seq<char>, rest: Seq<char>, index: Seq<char>, state: Seq<char>)
    ensures
        lldp::subscribable_index("lo"@, Some(index), Some(state)) is None,
        lldp::subscribable_index("docker"@ + rest, Some(index), Some(state)) is None,
        lldp::subscribable_index("veth"@ + rest, Some(index), Some(state)) is None,
        lldp::subscribable_index("br-"@ + rest, Some(index), Some(state)) is None,
        lldp::subscribable_index(name, Some(index), None) is None,
        lldp::subscribable_index(name, None, Some(state)) is None,
        scan::trim_space(state) != "up"@ && scan::trim_space(state) != "unknown"@ ==> lldp::subscribable_index(
            name,
            Some(index),
            Some(state),
        ) is None,
        name != "lo"@ && !scan::has_prefix(name, "docker"@) && !scan::has_prefix(name, "veth"@)
            && !scan::has_prefix(name, "br-"@) && (scan::trim_space(state) == "up"@ || scan::trim_space(state)
            == "unknown"@) ==> lldp::subscribable_index(name, Some(index), Some(state)) == number::i32_of(
            scan::trim_space(index),
        ),
{
    reveal_strlit("up");
    reveal_strlit("unknown");
    assert("up"@.len() == 2 && "unknown"@.len() == 7);
    let a = "docker"@ + rest;
    let b = "veth"@ + rest;
    let c = "br-"@ + rest;
    assert(a.take("docker"@.len() as int) =~= "docker"@);
    assert(b.take("veth"@.len() as int) =~= "veth"@);
    assert(c.take("br-"@.len() as int) =~= "br-"@);
}

/// A frame that announces a neighbour is kept for the interface that
/// received it, in place of an earlier one, and for no other; nothing else
/// changes what is kept.
pub proof fn law_frame_is_kept(m: Map<Seq<char>, NeighborModel>, event: DiscoverEvent, other: Seq<char>)
    ensures
        event matches DiscoverEvent::Frame { bytes, ifindex, name } ==> name matches Some(on) ==> {
            let after = lldp::neighbors_after(m, event);
            let seen = lldp::neighbor_of(bytes@, on@);
            &&& seen is Some ==> after.contains_key(on@) && after[on@] == seen->0
            &&& seen is None ==> after == m
            &&& other != on@ ==> after.contains_key(other) == m.contains_key(other) && (m.contains_key(other)
                ==> after[other] == m[other])
        },
        !(event is Frame) ==> lldp::neighbors_after(m, event) == m,
{
}

// ---------------------------------------------------------------------
// Slugs
// ---------------------------------------------------------------------

/// The characters stay in a slug, in whatever case.
pub open spec fn stays(u: SlugUse, c: char) -> bool {
    ||| 'a' <= c <= 'z'
    ||| 'A' <= c <= 'Z'
    ||| '0' <= c <= '9'
    ||| u == SlugUse::Label && (c == '.' || c == '_')
}

proof fn lemma_squashed_plain(u: SlugUse, s: Seq<char>)
    requires
        forall|i: int| 0 <= i < s.len() ==> stays(u, #[trigger] s[i]),
    ensures
        lldp::squashed(u, s) == scan::lower_text(s),
    decreases s.len(),
{
    if s.len() > 0 {
        let front = s.drop_last();
        assert forall|i: int| 0 <= i < front.len() implies stays(u, #[trigger] front[i]) by {
            assert(front[i] == s[i]);
        }
        lemma_squashed_plain(u, front);
        let c = s.last();
        assert(stays(u, s[s.len() - 1]));
        assert(lldp::is_slug_char(u, scan::lower_char(c)));
    }
    assert(lldp::squashed(u, s) =~= scan::lower_text(s));
}

/// A text of letters and digits, and in a label of dots and underscores, is
/// its own slug in lower case.
pub proof fn law_plain_text_is_its_slug(u: SlugUse, s: Seq<char>)
    requires
        forall|i: int| 0 <= i < s.len() ==> stays(u, #[trigger] s[i]),
    ensures
        lldp::slug_for(u, s) == scan::lower_text(s),
{
    lemma_squashed_plain(u, s);
    let t = scan::lower_text(s);
    if s.len() > 0 {
        assert(stays(u, s[0]) && stays(u, s[s.len() - 1]));
        assert(t[0] == scan::lower_char(s[0]) && t.last() == scan::lower_char(s[s.len() - 1]));
        assert(!CharClass::One('-').has(t[0]) && !CharClass::One('-').has(t.last()));
    }
}

/// A text that is a slug already is its own slug.
pub proof fn law_slug_stays(u: SlugUse, s: Seq<char>)
    requires
        lldp::is_slug(u, s),
    ensures
        lldp::slug_for(u, s) == s,
{
    lldp::lemma_squash_keeps(u, s);
    if s.len() > 0 {
        assert(!CharClass::One('-').has(s[0]) && !CharClass::One('-').has(s.last()));
    }
}

/// Two plain words with something else between them make a slug of both
/// with one dash between.
pub proof fn law_words_are_joined_by_a_dash(u: SlugUse, a: Seq<char>, c: char, b: Seq<char>)
    requires
        a.len() > 0,
        b.len() > 0,
        forall|i: int| 0 <= i < a.len() ==> stays(u, #[trigger] a[i]),
        forall|i: int| 0 <= i < b.len() ==> stays(u, #[trigger] b[i]),
        !stays(u, c),
    ensures
        lldp::slug_for(u, a + seq![c] + b) == scan::lower_text(a) + seq!['-'] + scan::lower_text(b),
{
    lemma_squashed_words(u, a, c, b);
    let t = scan::lower_text(a) + seq!['-'] + scan::lower_text(b);
    assert(stays(u, a[0]) && stays(u, b[b.len() - 1]));
    assert(t[0] == scan::lower_char(a[0]) && t.last() == scan::lower_char(b[b.len() - 1]));
    assert(!CharClass::One('-').has(t[0]) && !CharClass::One('-').has(t.last()));
}

proof fn lemma_squashed_words(u: SlugUse, a: Seq<char>, c: char, b: Seq<char>)
    requires
        a.len() > 0,
        forall|i: int| 0 <= i < a.len() ==> stays(u, #[trigger] a[i]),
        forall|i: int| 0 <= i < b.len() ==> stays(u, #[trigger] b[i]),
        !stays(u, c),
    ensures
        lldp::squashed(u, a + seq![c] + b) == scan::lower_text(a) + seq!['-'] + scan::lower_text(b),
    decreases b.len(),
{
    let s = a + seq![c] + b;
    let want = scan::lower_text(a) + seq!['-'] + scan::lower_text(b);
    if b.len() == 0 {
        assert(s.drop_last() =~= a);
        lemma_squashed_plain(u, a);
        let head = scan::lower_text(a);
        assert(stays(u, a[a.len() - 1]));
        assert(head.last() == scan::lower_char(a[a.len() - 1]));
        assert(head.last() != '-');
        assert(!lldp::is_slug_char(u, scan::lower_char(c)));
        assert(lldp::squashed(u, s) =~= want);
    } else {
        let front = b.drop_last();
        assert forall|i: int| 0 <= i < front.len() implies stays(u, #[trigger] front[i]) by {
            assert(front[i] == b[i]);
        }
        lemma_squashed_words(u, a, c, front);
        assert(s.drop_last() =~= a + seq![c] + front);
        assert(stays(u, b[b.len() - 1]));
        assert(lldp::is_slug_char(u, scan::lower_char(b.last())));
        assert(lldp::squashed(u, s) =~= want);
    }
}

// ---------------------------------------------------------------------
// Models
// ---------------------------------------------------------------------

/// The model of a neighbour says of each thing what the neighbour says of it.
pub proof fn law_model_of_a_neighbour(n: lldp::LldpNeighbor)
    ensures
        n@.interface == n.interface@,
        n@.chassis_id == n.chassis_id@,
        n@.chassis_id_kind == n.chassis_id_kind,
        n@.port_id == n.port_id@,
        n@.system_name == text::opt_text(n.system_name),
{
}

/// The model of a domain says of each thing what the domain says of it.
pub proof fn law_model_of_a_domain(d: FabricDomain)
    ensures
        d@.id == d.id@,
        d@.kind == d.kind,
        d@.members.len() == d.member_accelerators@.len(),
        forall|i: int|
            0 <= i < d.member_accelerators@.len() ==> #[trigger] d@.members[i] == d.member_accelerators@[i]@,
        d@.aggregate_bandwidth_gbps == d.aggregate_bandwidth_gbps,
{
}

/// The model of a device says of each thing what the device says of it.
pub proof fn law_model_of_a_device(d: RdmaDevice, i: int)
    ensures
        d@.name == d.name@,
        d@.ports.len() == d.ports@.len(),
        0 <= i < d.ports@.len() ==> d@.ports[i].index == d.ports@[i].index,
        0 <= i < d.ports@.len() ==> d@.ports[i].state == d.ports@[i].state@,
        0 <= i < d.ports@.len() ==> d@.ports[i].phys_state == d.ports@[i].phys_state@,
        0 <= i < d.ports@.len() ==> d@.ports[i].link_layer == d.ports@[i].link_layer@,
        0 <= i < d.ports@.len() && d.ports@[i].rate_gbps is None ==> d@.ports[i].rate_gbps is None,
        0 <= i < d.ports@.len() && d.ports@[i].rate_gbps is Some ==> d@.ports[i].rate_gbps == Some(
            d.ports@[i].rate_gbps->0 as nat,
        ),
{
}


// ---------------------------------------------------------------------
// For people
// ---------------------------------------------------------------------

/// A text of eighty bytes or less is shown as it is; of a longer one so many
/// characters are shown as make up eighty bytes, with an ellipsis behind
/// them.
pub proof fn law_long_values_are_cut(v: Seq<char>, n: int)
    ensures
        text::utf8_len(v) <= 80 ==> labels::preview(v) == v,
        text::utf8_len(v) > 80 && 0 <= n <= v.len() && text::utf8_len(v.take(n)) == 80 ==> labels::preview(v) == v.take(
            n,
        ) + "…"@,
{
    if text::utf8_len(v) > 80 && 0 <= n <= v.len() && text::utf8_len(v.take(n)) == 80 {
        assert(text::cuts_at(v, n, 80));
        let m = choose|m: int| text::cuts_at(v, m, 80);
        if m < n {
            text::lemma_utf8_len_grows(v, m, n);
        }
        if n < m {
            text::lemma_utf8_len_grows(v, n, m);
        }
    }
}

/// Each entry is a line of its own, with its key and its value.
pub proof fn law_listing_has_a_line_for_each(s: Seq<(String, String)>, e: (String, String))
    ensures
        labels::listing(Seq::empty()).len() == 0,
        labels::listing(s.push(e)) == labels::listing(s) + ("  "@ + e.0@ + " = "@ + e.1@ + "\n"@),
        labels::preview_listing(Seq::empty()).len() == 0,
        labels::preview_listing(s.push(e)) == labels::preview_listing(s) + ("  "@ + e.0@ + " = "@ + labels::preview(
            e.1@,
        ) + "\n"@),
{
    assert(s.push(e).drop_last() =~= s);
}


// ---------------------------------------------------------------------
// Names and peers
// ---------------------------------------------------------------------

/// A model whose name leaves nothing is called unknown, and any other by what
/// it leaves.
pub proof fn law_slug_of_a_model(s: Seq<char>)
    ensures
        lldp::slug_of(s).len() == 0 ==> labels::label_slug(s) == "unknown"@,
        lldp::slug_of(s).len() > 0 ==> labels::label_slug(s) == lldp::slug_of(s),
        lldp::slug_of(s) == lldp::slug_for(SlugUse::Label, s),
{
}

/// An interface that the system knows no name for goes by its index.
pub proof fn law_name_of_an_interface(ifindex: int, name: Seq<char>)
    ensures
        lldp::interface_name(ifindex, Some(name)) == name,
        lldp::interface_name(ifindex, None) == "if"@ + number::signed_decimal(ifindex),
{
}

/// The words with a colon in a file of a device.
pub open spec fn addresses_in(fs: Sysfs, dir: Seq<char>, file: Seq<char>) -> Seq<Seq<char>> {
    match fs.file(dir, file) {
        Some(s) => scan::fields_of(s, CharClass::AsciiSpace).filter(|t: Seq<char>| t.contains(':')),
        None => Seq::empty(),
    }
}

proof fn lemma_addresses(fs: Sysfs, dir: Seq<char>, file: Seq<char>)
    ensures
        discover::peers_in(fs.file(dir, file)) == addresses_in(fs, dir, file),
{
    if let Some(s) = fs.file(dir, file) {
        let f = |t: Seq<char>| discover::has_colon(t);
        let g = |t: Seq<char>| t.contains(':');
        assert forall|t: Seq<char>| #[trigger] f(t) == g(t) by {
            if discover::has_colon(t) {
                let i = choose|i: int| 0 <= i < t.len() && CharClass::One(':').has(#[trigger] t[i]);
                assert(t[i] == ':');
            }
            if t.contains(':') {
                let i = choose|i: int| 0 <= i < t.len() && t[i] == ':';
                assert(CharClass::One(':').has(t[i]));
            }
        }
        assert(f =~= g);
    }
}

/// The peers of a device are the addresses in the first of its three files
/// that holds any.
pub proof fn law_peers_of_a_device(fs: Sysfs, dir: Seq<char>)
    ensures
        ({
            let a = addresses_in(fs, dir, "xgmi_peer_links"@);
            let b = addresses_in(fs, dir, "xgmi_phy_id"@);
            let c = addresses_in(fs, dir, "xgmi_link_status"@);
            let peers = discover::xgmi_peers_of(fs, dir);
            &&& a.len() > 0 ==> peers == a
            &&& a.len() == 0 && b.len() > 0 ==> peers == b
            &&& a.len() == 0 && b.len() == 0 ==> peers == c
        }),
{
    lemma_addresses(fs, dir, "xgmi_peer_links"@);
    lemma_addresses(fs, dir, "xgmi_phy_id"@);
    lemma_addresses(fs, dir, "xgmi_link_status"@);
}

proof fn lemma_hex_digits(n: nat)
    ensures
        number::hex(n).len() > 0,
        n < 16 ==> number::hex(n).len() == 1,
        n >= 16 ==> number::hex(n).len() == number::hex(n / 16).len() + 1,
{
    reveal_with_fuel(number::numeral, 2);
}

/// The identifier of a domain is `fab-` and at most eight hexadecimal digits.
pub proof fn law_identifier_of_a_domain(members: Seq<IdModel>)
    ensures
        scan::has_prefix(discover::domain_id_of(members), "fab-"@),
        "fab-"@.len() < discover::domain_id_of(members).len() <= "fab-"@.len() + 8,
{
    let id = discover::domain_id_of(members);
    let digits = id.skip("fab-"@.len() as int);
    let n = (DefaultHasher::spec_finish(hashing::hashed(sorting::sorted_texts(discover::addrs(members))))
        % 0x1_0000_0000) as nat;
    assert(id == "fab-"@ + number::hex(n));
    assert(id.take("fab-"@.len() as int) =~= "fab-"@);
    assert(digits =~= number::hex(n));
    lemma_hex_digits(n);
    lemma_hex_digits(n / 16);
    lemma_hex_digits(n / 16 / 16);
    lemma_hex_digits(n / 16 / 16 / 16);
    lemma_hex_digits(n / 16 / 16 / 16 / 16);
    lemma_hex_digits(n / 16 / 16 / 16 / 16 / 16);
    lemma_hex_digits(n / 16 / 16 / 16 / 16 / 16 / 16);
    lemma_hex_digits(n / 16 / 16 / 16 / 16 / 16 / 16 / 16);
}

/// A set of annotations can be shown if every long one of them has a
/// character that ends at its eightieth byte.
pub proof fn law_what_can_be_shown(s: Seq<(String, String)>)
    ensures
        labels::can_preview_all(s) <==> forall|i: int|
            0 <= i < s.len() && text::utf8_len((#[trigger] s[i]).1@) > 80 ==> exists|n: int|
                0 <= n <= s[i].1@.len() && #[trigger] text::utf8_len(s[i].1@.take(n)) == 80,
{
    if labels::can_preview_all(s) {
        assert forall|i: int| 0 <= i < s.len() && text::utf8_len((#[trigger] s[i]).1@) > 80 implies exists|n: int|
            0 <= n <= s[i].1@.len() && #[trigger] text::utf8_len(s[i].1@.take(n)) == 80 by {
            let v = s[i].1@;
            assert(labels::can_preview(v));
            let n = choose|n: int| text::cuts_at(v, n, 80);
            assert(text::utf8_len(v.take(n)) == 80);
        }
    }
    if forall|i: int|
        0 <= i < s.len() && text::utf8_len((#[trigger] s[i]).1@) > 80 ==> exists|n: int|
            0 <= n <= s[i].1@.len() && #[trigger] text::utf8_len(s[i].1@.take(n)) == 80 {
        assert forall|i: int| 0 <= i < s.len() implies labels::can_preview((#[trigger] s[i]).1@) by {
            let v = s[i].1@;
            if text::utf8_len(v) > 80 {
                let n = choose|n: int| 0 <= n <= v.len() && #[trigger] text::utf8_len(v.take(n)) == 80;
                assert(text::cuts_at(v, n, 80));
            }
        }
    }
}


} // verus!
