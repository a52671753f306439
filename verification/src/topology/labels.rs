//! The labels and annotations that publish a node's accelerators for
//! topology-aware schedulers.

use super::lldp;
use super::rdma;
use super::rdma::RdmaInventory;
use super::NodeTopology;
use crate::number;
use crate::paths;
use crate::sensors::Accelerator;
use crate::text;
use crate::text::Cut;
use crate::textmap;
use crate::textmap::TextMap;
use crate::topology;
use vstd::prelude::*;

verus! {

/// What a node is to carry.
pub struct LabelSet {
    pub labels: TextMap<String>,
    pub annotations: TextMap<String>,
}

impl Clone for LabelSet {
    fn clone(&self) -> (r: Self)
        ensures
            r.labels.seq() == self.labels.seq(),
            r.annotations.seq() == self.annotations.seq(),
    {
        LabelSet { labels: self.labels.clone(), annotations: self.annotations.clone() }
    }
}

// ---------------------------------------------------------------------
// Counting
// ---------------------------------------------------------------------

/// The weights of the pairs with the given key, added up.
pub open spec fn total(pairs: Seq<(Seq<char>, nat)>, key: Seq<char>) -> nat
    decreases pairs.len(),
{
    if pairs.len() == 0 {
        0
    } else {
        total(pairs.drop_last(), key) + if pairs.last().0 == key {
            pairs.last().1
        } else {
            0
        }
    }
}

/// A pair with the given key.
pub open spec fn key_among(pairs: Seq<(Seq<char>, nat)>, key: Seq<char>) -> bool {
    exists|i: int| 0 <= i < pairs.len() && (#[trigger] pairs[i]).0 == key
}

/// Each key with the sum of its weights.
pub open spec fn tally(pairs: Seq<(Seq<char>, nat)>) -> Map<Seq<char>, nat> {
    Map::new(|k: Seq<char>| key_among(pairs, k), |k: Seq<char>| total(pairs, k))
}

/// The counts held by a map.
pub open spec fn counts(m: TextMap<u128>) -> Map<Seq<char>, nat> {
    m@.map_values(|n: u128| n as nat)
}

proof fn lemma_tally_push(pairs: Seq<(Seq<char>, nat)>, p: (Seq<char>, nat))
    ensures
        tally(pairs.push(p)) == tally(pairs).insert(p.0, total(pairs, p.0) + p.1),
{
    let q = pairs.push(p);
    assert(q.drop_last() =~= pairs);
    assert forall|k: Seq<char>| key_among(q, k) == (key_among(pairs, k) || k == p.0) by {
        if key_among(q, k) {
            let i = choose|i: int| 0 <= i < q.len() && (#[trigger] q[i]).0 == k;
            if i < pairs.len() {
                assert(pairs[i].0 == k);
            }
        }
        if key_among(pairs, k) {
            let i = choose|i: int| 0 <= i < pairs.len() && (#[trigger] pairs[i]).0 == k;
            assert(q[i].0 == k);
        }
        if k == p.0 {
            assert(q[pairs.len() as int].0 == k);
        }
    }
    assert(tally(q) =~= tally(pairs).insert(p.0, total(pairs, p.0) + p.1));
}

/// A key without pairs has no weight.
pub proof fn lemma_total_absent(pairs: Seq<(Seq<char>, nat)>, key: Seq<char>)
    requires
        !key_among(pairs, key),
    ensures
        total(pairs, key) == 0,
    decreases pairs.len(),
{
    if pairs.len() > 0 {
        let d = pairs.drop_last();
        assert(pairs[pairs.len() - 1].0 != key);
        assert(!key_among(d, key)) by {
            if key_among(d, key) {
                let i = choose|i: int| 0 <= i < d.len() && (#[trigger] d[i]).0 == key;
                assert(pairs[i].0 == key);
            }
        }
        lemma_total_absent(d, key);
    }
}

proof fn lemma_total_bound(pairs: Seq<(Seq<char>, nat)>, key: Seq<char>)
    requires
        forall|i: int| 0 <= i < pairs.len() ==> (#[trigger] pairs[i]).1 <= usize::MAX,
    ensures
        total(pairs, key) <= pairs.len() * usize::MAX,
    decreases pairs.len(),
{
    if pairs.len() > 0 {
        let d = pairs.drop_last();
        assert forall|i: int| 0 <= i < d.len() implies (#[trigger] d[i]).1 <= usize::MAX by {
            assert(d[i] == pairs[i]);
        }
        lemma_total_bound(d, key);
        assert(pairs[pairs.len() - 1].1 <= usize::MAX);
        let n = pairs.len();
        assert((n - 1) * usize::MAX + usize::MAX == n * usize::MAX) by (nonlinear_arith);
    }
}

/// Counts a key with a weight. `pairs` is what was counted before.
fn count(m: &mut TextMap<u128>, key: &str, weight: usize, Ghost(pairs): Ghost<Seq<(Seq<char>, nat)>>)
    requires
        counts(*old(m)) == tally(pairs),
        forall|i: int| 0 <= i < pairs.len() ==> (#[trigger] pairs[i]).1 <= usize::MAX,
        pairs.len() < usize::MAX,
    ensures
        counts(*final(m)) == tally(pairs.push((key@, weight as nat))),
{
    let ghost before = m@;
    let so_far: u128 = match m.get(key) {
        Some(n) => *n,
        None => 0,
    };
    proof {
        lemma_total_bound(pairs, key@);
        if before.contains_key(key@) {
            assert(counts(*m).contains_key(key@) && counts(*m)[key@] == so_far);
            assert(tally(pairs).contains_key(key@) && tally(pairs)[key@] == total(pairs, key@));
        } else {
            assert(!counts(*m).contains_key(key@));
            assert(!tally(pairs).contains_key(key@));
            assert(!key_among(pairs, key@));
            lemma_total_absent(pairs, key@);
        }
        assert(so_far == total(pairs, key@));
        let n = pairs.len();
        assert(n * usize::MAX + usize::MAX <= u128::MAX) by (nonlinear_arith)
            requires
                n < usize::MAX,
                usize::MAX <= 0xffff_ffff_ffff_ffff,
        ;
    }
    m.insert(key.to_owned(), so_far + weight as u128);
    proof {
        lemma_tally_push(pairs, (key@, weight as nat));
        assert(counts(*m) =~= tally(pairs).insert(key@, total(pairs, key@) + weight as nat));
    }
}

/// Labels `<prefix><key><suffix>`, each with the count of its key.
pub open spec fn count_labels(
    prefix: Seq<char>,
    suffix: Seq<char>,
    counts: Map<Seq<char>, nat>,
) -> Map<Seq<char>, Seq<char>> {
    Map::new(
        |k: Seq<char>| exists|m: Seq<char>| counts.contains_key(m) && k == #[trigger] (prefix + m + suffix),
        |k: Seq<char>| number::decimal(counts[k.subrange(prefix.len() as int, k.len() - suffix.len())]),
    )
}

proof fn lemma_middle(prefix: Seq<char>, m: Seq<char>, suffix: Seq<char>)
    ensures
        ({
            let k = prefix + m + suffix;
            k.subrange(prefix.len() as int, k.len() - suffix.len()) == m
        }),
{
    let k = prefix + m + suffix;
    assert(k.subrange(prefix.len() as int, k.len() - suffix.len()) =~= m);
}

/// The label of a key is there if the key is counted, with its count.
pub proof fn lemma_count_label(prefix: Seq<char>, suffix: Seq<char>, c: Map<Seq<char>, nat>, key: Seq<char>)
    ensures
        count_labels(prefix, suffix, c).contains_key(prefix + key + suffix) == c.contains_key(key),
        c.contains_key(key) ==> count_labels(prefix, suffix, c)[prefix + key + suffix] == number::decimal(
            c[key],
        ),
{
    let k = prefix + key + suffix;
    lemma_middle(prefix, key, suffix);
    if count_labels(prefix, suffix, c).contains_key(k) {
        let m = choose|m: Seq<char>| c.contains_key(m) && k == #[trigger] (prefix + m + suffix);
        lemma_middle(prefix, m, suffix);
    }
    if c.contains_key(key) {
        assert(k == prefix + key + suffix);
    }
}

/// A text that differs from the prefix is no label with it.
pub proof fn lemma_not_count_label(
    prefix: Seq<char>,
    suffix: Seq<char>,
    c: Map<Seq<char>, nat>,
    key: Seq<char>,
    i: int,
)
    requires
        0 <= i < prefix.len(),
        i < key.len(),
        key[i] != prefix[i],
    ensures
        !count_labels(prefix, suffix, c).contains_key(key),
{
    if count_labels(prefix, suffix, c).contains_key(key) {
        let m = choose|m: Seq<char>| c.contains_key(m) && key == #[trigger] (prefix + m + suffix);
        assert((prefix + m + suffix)[i] == prefix[i]);
    }
}

/// Weights of one add up to no more than there are pairs.
pub proof fn lemma_tally_bound(pairs: Seq<(Seq<char>, nat)>, key: Seq<char>)
    requires
        forall|i: int| 0 <= i < pairs.len() ==> (#[trigger] pairs[i]).1 == 1,
    ensures
        total(pairs, key) <= pairs.len(),
    decreases pairs.len(),
{
    if pairs.len() > 0 {
        let d = pairs.drop_last();
        assert forall|i: int| 0 <= i < d.len() implies (#[trigger] d[i]).1 == 1 by {
            assert(d[i] == pairs[i]);
        }
        lemma_tally_bound(d, key);
        assert(pairs[pairs.len() - 1].1 == 1);
    }
}

proof fn lemma_count_labels_insert(
    prefix: Seq<char>,
    suffix: Seq<char>,
    c: Map<Seq<char>, nat>,
    key: Seq<char>,
    n: nat,
)
    ensures
        count_labels(prefix, suffix, c.insert(key, n)) == count_labels(prefix, suffix, c).insert(
            prefix + key + suffix,
            number::decimal(n),
        ),
{
    let d = c.insert(key, n);
    let whole = prefix + key + suffix;
    let a = count_labels(prefix, suffix, d);
    let b = count_labels(prefix, suffix, c).insert(whole, number::decimal(n));
    lemma_middle(prefix, key, suffix);
    assert forall|k: Seq<char>| a.contains_key(k) == b.contains_key(k) by {
        if a.contains_key(k) {
            let m = choose|m: Seq<char>| d.contains_key(m) && k == #[trigger] (prefix + m + suffix);
            if m != key {
                assert(c.contains_key(m));
            }
        }
        if b.contains_key(k) && k != whole {
            let m = choose|m: Seq<char>| c.contains_key(m) && k == #[trigger] (prefix + m + suffix);
            assert(d.contains_key(m));
        }
        assert(d.contains_key(key) && whole == prefix + key + suffix);
    }
    assert forall|k: Seq<char>| a.contains_key(k) implies a[k] == b[k] by {
        let m = choose|m: Seq<char>| d.contains_key(m) && k == #[trigger] (prefix + m + suffix);
        lemma_middle(prefix, m, suffix);
    }
    assert(a =~= b);
}

/// The counts of the first `n` entries.
spec fn counts_of(s: Seq<(String, u128)>, n: int) -> Map<Seq<char>, nat>
    decreases n,
{
    if n <= 0 {
        Map::empty()
    } else {
        counts_of(s, n - 1).insert(s[n - 1].0@, s[n - 1].1 as nat)
    }
}

proof fn lemma_counts_of(s: Seq<(String, u128)>, n: int)
    requires
        textmap::increasing(s),
        0 <= n <= s.len(),
    ensures
        counts_of(s, n) == textmap::map_of(s.take(n)).map_values(|c: u128| c as nat),
    decreases n,
{
    let a = counts_of(s, n);
    let t = s.take(n);
    let b = textmap::map_of(t).map_values(|c: u128| c as nat);
    assert forall|i: int, j: int| 0 <= i < j < t.len() implies text::text_lt(
        #[trigger] t[i].0@,
        #[trigger] t[j].0@,
    ) by {
        assert(t[i] == s[i] && t[j] == s[j]);
    }
    if n > 0 {
        lemma_counts_of(s, n - 1);
        let u = s.take(n - 1);
        assert forall|i: int, j: int| 0 <= i < j < u.len() implies text::text_lt(
            #[trigger] u[i].0@,
            #[trigger] u[j].0@,
        ) by {
            assert(u[i] == s[i] && u[j] == s[j]);
        }
        let k = s[n - 1].0@;
        assert(t[n - 1].0@ == k);
        textmap::lemma_map_at(t, n - 1);
        assert forall|x: Seq<char>| a.contains_key(x) == b.contains_key(x) by {
            if textmap::map_of(t).contains_key(x) && x != k {
                let i = choose|i: int| textmap::key_at(t, x, i);
                assert(textmap::key_at(u, x, i));
            }
            if textmap::map_of(u).contains_key(x) {
                let i = choose|i: int| textmap::key_at(u, x, i);
                assert(textmap::key_at(t, x, i));
            }
        }
        assert forall|x: Seq<char>| a.contains_key(x) implies a[x] == b[x] by {
            if x != k {
                let i = choose|i: int| textmap::key_at(u, x, i);
                assert(textmap::key_at(t, x, i));
                textmap::lemma_map_at(u, i);
                textmap::lemma_map_at(t, i);
            }
        }
    } else {
        assert forall|x: Seq<char>| !textmap::map_of(t).contains_key(x) by {
            if textmap::map_of(t).contains_key(x) {
                let i = choose|i: int| textmap::key_at(t, x, i);
                assert(false);
            }
        }
    }
    assert(a =~= b);
}

/// Adds a label `<prefix><key><suffix>` for each count.
fn insert_counts(labels: &mut TextMap<String>, prefix: &str, suffix: &str, m: &TextMap<u128>)
    ensures
        textmap::text_values(*final(labels)) == textmap::text_values(*old(labels)).union_prefer_right(
            count_labels(prefix@, suffix@, counts(*m)),
        ),
{
    let entries = m.entries();
    let ghost before = textmap::text_values(*labels);
    let ghost s = entries@;
    let mut i: usize = 0;
    proof {
        assert(before.union_prefer_right(count_labels(prefix@, suffix@, counts_of(s, 0))) =~= before);
    }
    while i < entries.len()
        invariant
            i <= entries@.len(),
            s == entries@,
            textmap::text_values(*labels) == before.union_prefer_right(
                count_labels(prefix@, suffix@, counts_of(s, i as int)),
            ),
        decreases entries@.len() - i,
    {
        let key = text::join3(prefix, entries[i].0.as_str(), suffix);
        let value = number::dec_u128(entries[i].1);
        let ghost so_far = textmap::text_values(*labels);
        let ghost k = key@;
        let ghost v = value@;
        labels.insert(key, value);
        proof {
            let c = counts_of(s, i as int);
            lemma_count_labels_insert(prefix@, suffix@, c, s[i as int].0@, s[i as int].1 as nat);
            assert(textmap::text_values(*labels) =~= so_far.insert(k, v));
            assert(so_far.insert(k, v) =~= before.union_prefer_right(
                count_labels(prefix@, suffix@, c).insert(k, v),
            ));
        }
        i = i + 1;
    }
    proof {
        lemma_counts_of(s, s.len() as int);
        assert(s.take(s.len() as int) =~= s);
        assert(counts_of(s, s.len() as int) =~= counts(*m));
    }
}

// ---------------------------------------------------------------------
// Names
// ---------------------------------------------------------------------

/// The slug of a text, or `unknown` where nothing of it is left.
pub open spec fn label_slug(s: Seq<char>) -> Seq<char> {
    if lldp::slug_of(s).len() == 0 {
        "unknown"@
    } else {
        lldp::slug_of(s)
    }
}

/// The slug of a model name.
pub fn slugify(s: &str) -> (r: String)
    ensures
        r@ == label_slug(s@),
{
    let t = lldp::slugify(s);
    if text::is_empty(t.as_str()) {
        "unknown".to_owned()
    } else {
        t
    }
}

/// A model's slug is safe in a label, and never empty.
pub proof fn law_label_slug_is_safe(s: Seq<char>)
    ensures
        lldp::is_slug(lldp::SlugUse::Label, label_slug(s)),
        label_slug(s).len() > 0,
{
    lldp::law_slug_is_safe(lldp::SlugUse::Label, s);
    reveal_strlit("unknown");
    if lldp::slug_of(s).len() == 0 {
        let u = "unknown"@;
        assert(u =~= seq!['u', 'n', 'k', 'n', 'o', 'w', 'n']);
    }
}

// ---------------------------------------------------------------------
// The labels of a node
// ---------------------------------------------------------------------

/// The parents of the devices of a vendor.
pub open spec fn vendor_parents(accels: Seq<Accelerator>, vendor: Seq<char>) -> Seq<paths::PathModel>
    decreases accels.len(),
{
    if accels.len() == 0 {
        Seq::empty()
    } else {
        let head = vendor_parents(accels.drop_last(), vendor);
        let a = accels.last();
        match paths::parent_of(a.device_dir@) {
            Some(p) => if a.id.vendor.name() == vendor {
                head.push(p)
            } else {
                head
            },
            None => head,
        }
    }
}

/// How many parents each vendor's devices have.
pub open spec fn physical_counts(accels: Seq<Accelerator>) -> Map<Seq<char>, nat> {
    Map::new(
        |k: Seq<char>| vendor_parents(accels, k).len() > 0,
        |k: Seq<char>| vendor_parents(accels, k).to_set().len(),
    )
}

/// Each domain with the number of its members.
pub open spec fn domain_sizes(domains: Seq<topology::FabricDomain>) -> Seq<(Seq<char>, nat)> {
    domains.map_values(|d: topology::FabricDomain| (d.id@, d.member_accelerators@.len()))
}

/// Each accelerator's vendor.
pub open spec fn vendors(accels: Seq<Accelerator>) -> Seq<(Seq<char>, nat)> {
    accels.map_values(|a: Accelerator| (a.id.vendor.name(), 1nat))
}

/// Each accelerator's model.
pub open spec fn model_slugs(accels: Seq<Accelerator>) -> Seq<(Seq<char>, nat)> {
    accels.map_values(|a: Accelerator| (label_slug(a.model@), 1nat))
}

/// Each accelerator's kind of memory.
pub open spec fn memory_kinds(accels: Seq<Accelerator>) -> Seq<(Seq<char>, nat)> {
    accels.map_values(|a: Accelerator| (a.memory_kind.name(), 1nat))
}

/// A map with one more entry, where there is a value for it.
pub open spec fn with_opt(
    m: Map<Seq<char>, Seq<char>>,
    key: Seq<char>,
    value: Option<Seq<char>>,
) -> Map<Seq<char>, Seq<char>> {
    match value {
        Some(v) => m.insert(key, v),
        None => m,
    }
}

/// The labels of a node.
pub open spec fn labels_of(t: NodeTopology, accels: Seq<Accelerator>) -> Map<Seq<char>, Seq<char>> {
    with_opt(
        with_opt(Map::empty(), "accel-topo.lunnova.dev/block"@, text::opt_text(t.block)),
        "accel-topo.lunnova.dev/rack"@,
        text::opt_text(t.rack),
    ).union_prefer_right(
        count_labels("accel-topo.lunnova.dev/fabric-domain."@, ""@, tally(domain_sizes(t.fabric_domains@))),
    ).insert(
        "accel-topo.lunnova.dev/fabric-domains-count"@,
        number::decimal(t.fabric_domains@.len()),
    ).union_prefer_right(
        count_labels("accel.lunnova.dev/vendor."@, ".count"@, tally(vendors(accels))),
    ).union_prefer_right(
        count_labels("accel.lunnova.dev/model."@, ".count"@, tally(model_slugs(accels))),
    ).union_prefer_right(
        count_labels("accel.lunnova.dev/memory-kind."@, ".count"@, tally(memory_kinds(accels))),
    ).union_prefer_right(
        count_labels("accel.lunnova.dev/vendor."@, ".physical-count"@, physical_counts(accels)),
    ).insert("accel.lunnova.dev/total-count"@, number::decimal(accels.len()))
}

/// The annotations of a node: its inventory and its fabric, as JSON.
pub open spec fn annotations_of(inventory: Option<Seq<char>>, fabric_graph: Option<Seq<char>>) -> Map<
    Seq<char>,
    Seq<char>,
> {
    with_opt(
        with_opt(Map::empty(), "accel.lunnova.dev/inventory"@, inventory),
        "accel.lunnova.dev/fabric-graph"@,
        fabric_graph,
    )
}

/// The labels of a node with the RDMA devices: one more where a probe can run
/// on them.
pub open spec fn rdma_labels(base: Map<Seq<char>, Seq<char>>, devices: Seq<rdma::RdmaDevice>) -> Map<
    Seq<char>,
    Seq<char>,
> {
    if rdma::has_active_roce(devices) {
        base.insert("accel-net.lunnova.dev/rdma"@, "present"@)
    } else {
        base
    }
}

/// The annotations of a node with the JSON text of its RDMA devices.
pub open spec fn rdma_annotations(base: Map<Seq<char>, Seq<char>>, inventory: Option<Seq<char>>) -> Map<
    Seq<char>,
    Seq<char>,
> {
    with_opt(base, "accel-net.lunnova.dev/rdma-inventory"@, inventory)
}

fn insert_text(m: &mut TextMap<String>, key: &str, value: String)
    ensures
        textmap::text_values(*final(m)) == textmap::text_values(*old(m)).insert(key@, value@),
{
    let ghost before = textmap::text_values(*m);
    let ghost v = value@;
    m.insert(key.to_owned(), value);
    assert(textmap::text_values(*m) =~= before.insert(key@, v));
}

fn insert_opt(m: &mut TextMap<String>, key: &str, value: Option<String>)
    ensures
        textmap::text_values(*final(m)) == with_opt(
            textmap::text_values(*old(m)),
            key@,
            text::opt_text(value),
        ),
{
    match value {
        Some(v) => {
            insert_text(m, key, v);
        },
        None => {},
    }
}

/// How many parents the devices of a vendor have, if any.
fn physical_count(accels: &Vec<Accelerator>, vendor: &str) -> (r: Option<usize>)
    ensures
        match r {
            Some(n) => vendor_parents(accels@, vendor@).len() > 0 && n == vendor_parents(
                accels@,
                vendor@,
            ).to_set().len(),
            None => vendor_parents(accels@, vendor@).len() == 0,
        },
{
    let mut seen: Vec<paths::PathParts> = Vec::new();
    let ghost mut models: Seq<paths::PathModel> = Seq::empty();
    let mut any = false;
    let mut i: usize = 0;
    proof {
        assert(vendor_parents(accels@.take(0), vendor@) =~= Seq::empty());
        assert(models.to_set() =~= vendor_parents(accels@.take(0), vendor@).to_set());
    }
    while i < accels.len()
        invariant
            i <= accels@.len(),
            models == seen@.map_values(|p: paths::PathParts| p@),
            models.no_duplicates(),
            models.to_set() == vendor_parents(accels@.take(i as int), vendor@).to_set(),
            any == (vendor_parents(accels@.take(i as int), vendor@).len() > 0),
        decreases accels@.len() - i,
    {
        let ghost before = vendor_parents(accels@.take(i as int), vendor@);
        let ghost after = vendor_parents(accels@.take(i + 1), vendor@);
        proof {
            let t = accels@.take(i + 1);
            assert(t.drop_last() =~= accels@.take(i as int));
            assert(t.last() == accels@[i as int]);
        }
        match paths::parent(accels[i].device_dir.as_str()) {
            Some(p) => {
                if text::same(accels[i].id.vendor.slug(), vendor) {
                    any = true;
                    let known = holds_path(&seen, &p);
                    proof {
                        assert(after == before.push(p@));
                        lemma_push_to_set(before, p@);
                        lemma_push_to_set(models, p@);
                    }
                    if known {
                        proof {
                            assert(models.to_set().contains(p@));
                            assert(after.to_set() =~= models.to_set());
                        }
                    } else {
                        let ghost m = p@;
                        let ghost old_models = models;
                        seen.push(p);
                        proof {
                            models = models.push(m);
                            assert(models =~= seen@.map_values(|p: paths::PathParts| p@));
                            assert forall|a: int, b: int|
                                0 <= a < models.len() && 0 <= b < models.len() && a != b implies models[a]
                                != models[b] by {
                                if a < old_models.len() {
                                    assert(old_models.contains(old_models[a]));
                                }
                                if b < old_models.len() {
                                    assert(old_models.contains(old_models[b]));
                                }
                            }
                        }
                    }
                }
            },
            None => {},
        }
        i = i + 1;
    }
    proof {
        assert(accels@.take(accels@.len() as int) =~= accels@);
        models.unique_seq_to_set();
    }
    if any {
        Some(seen.len())
    } else {
        None
    }
}

proof fn lemma_push_to_set(s: Seq<paths::PathModel>, x: paths::PathModel)
    ensures
        s.push(x).to_set() == s.to_set().insert(x),
{
    let t = s.push(x);
    assert forall|y: paths::PathModel| t.to_set().contains(y) == s.to_set().insert(x).contains(y) by {
        if t.contains(y) {
            let i = choose|i: int| 0 <= i < t.len() && t[i] == y;
            if i < s.len() {
                assert(s[i] == y);
            }
        }
        if s.contains(y) {
            let i = choose|i: int| 0 <= i < s.len() && s[i] == y;
            assert(t[i] == y);
        }
        assert(t[s.len() as int] == x);
    }
    assert(t.to_set() =~= s.to_set().insert(x));
}

fn holds_path(v: &Vec<paths::PathParts>, p: &paths::PathParts) -> (r: bool)
    ensures
        r == v@.map_values(|q: paths::PathParts| q@).contains(p@),
{
    let ghost all = v@.map_values(|q: paths::PathParts| q@);
    let mut i: usize = 0;
    while i < v.len()
        invariant
            i <= v@.len(),
            all == v@.map_values(|q: paths::PathParts| q@),
            forall|k: int| 0 <= k < i ==> (#[trigger] v@[k])@ != p@,
        decreases v@.len() - i,
    {
        if paths::same_path(&v[i], p) {
            assert(all[i as int] == p@);
            return true;
        }
        i = i + 1;
    }
    proof {
        if all.contains(p@) {
            let k = choose|k: int| 0 <= k < all.len() && all[k] == p@;
            assert(v@[k]@ == p@);
        }
    }
    false
}

fn count_physical(m: &mut TextMap<u128>, accels: &Vec<Accelerator>, vendor: &str)
    ensures
        counts(*final(m)) == (if vendor_parents(accels@, vendor@).len() > 0 {
            counts(*old(m)).insert(vendor@, vendor_parents(accels@, vendor@).to_set().len())
        } else {
            counts(*old(m))
        }),
{
    let ghost before = counts(*m);
    match physical_count(accels, vendor) {
        Some(n) => {
            m.insert(vendor.to_owned(), n as u128);
            assert(counts(*m) =~= before.insert(vendor@, n as nat));
        },
        None => {},
    }
}

proof fn lemma_vendor_named(accels: Seq<Accelerator>, k: Seq<char>)
    requires
        vendor_parents(accels, k).len() > 0,
    ensures
        k == "amd"@ || k == "nvidia"@ || k == "intel"@ || k == "other"@,
    decreases accels.len(),
{
    if vendor_parents(accels.drop_last(), k).len() > 0 {
        lemma_vendor_named(accels.drop_last(), k);
    }
}

/// How many parents each vendor's devices have.
fn physical_funcs(accels: &Vec<Accelerator>) -> (r: TextMap<u128>)
    ensures
        counts(r) == physical_counts(accels@),
{
    let mut m: TextMap<u128> = TextMap::new();
    count_physical(&mut m, accels, "amd");
    count_physical(&mut m, accels, "nvidia");
    count_physical(&mut m, accels, "intel");
    count_physical(&mut m, accels, "other");
    proof {
        let want = physical_counts(accels@);
        assert forall|k: Seq<char>| want.contains_key(k) implies k == "amd"@ || k == "nvidia"@ || k == "intel"@
            || k == "other"@ by {
            lemma_vendor_named(accels@, k);
        }
        assert(counts(m) =~= want);
    }
    m
}

/// The labels and annotations that publish `topology` and `accelerators`.
/// `inventory` and `fabric_graph` are the JSON texts of the accelerators'
/// inventory entries and of the fabric domains, where they could be made.
pub fn build(
    topology: &NodeTopology,
    accelerators: &Vec<Accelerator>,
    inventory: Option<String>,
    fabric_graph: Option<String>,
) -> (r: LabelSet)
    ensures
        textmap::text_values(r.labels) == labels_of(*topology, accelerators@),
        textmap::text_values(r.annotations) == annotations_of(
            text::opt_text(inventory),
            text::opt_text(fabric_graph),
        ),
{
    let mut labels: TextMap<String> = TextMap::new();
    assert(textmap::text_values(labels) =~= Map::empty());
    insert_opt(&mut labels, "accel-topo.lunnova.dev/block", text::clone_opt(&topology.block));
    insert_opt(&mut labels, "accel-topo.lunnova.dev/rack", text::clone_opt(&topology.rack));
    let domain_counts = count_domains(&topology.fabric_domains);
    insert_counts(&mut labels, "accel-topo.lunnova.dev/fabric-domain.", "", &domain_counts);
    insert_text(
        &mut labels,
        "accel-topo.lunnova.dev/fabric-domains-count",
        number::dec_usize(topology.fabric_domains.len()),
    );
    let (vendor_counts, model_counts, memkind_counts) = count_accelerators(accelerators);
    let physical = physical_funcs(accelerators);
    insert_counts(&mut labels, "accel.lunnova.dev/vendor.", ".count", &vendor_counts);
    insert_counts(&mut labels, "accel.lunnova.dev/model.", ".count", &model_counts);
    insert_counts(&mut labels, "accel.lunnova.dev/memory-kind.", ".count", &memkind_counts);
    insert_counts(&mut labels, "accel.lunnova.dev/vendor.", ".physical-count", &physical);
    insert_text(&mut labels, "accel.lunnova.dev/total-count", number::dec_usize(accelerators.len()));
    let mut annotations: TextMap<String> = TextMap::new();
    assert(textmap::text_values(annotations) =~= Map::empty());
    insert_opt(&mut annotations, "accel.lunnova.dev/inventory", inventory);
    insert_opt(&mut annotations, "accel.lunnova.dev/fabric-graph", fabric_graph);
    LabelSet { labels, annotations }
}

/// Publishes the RDMA devices too: a label says that a probe can run on
/// them, where it can, and an annotation lists them. `inventory` is the JSON
/// text of the devices, where it could be made.
pub fn add_rdma(set: &mut LabelSet, devices: &RdmaInventory, inventory: Option<String>)
    ensures
        textmap::text_values(final(set).labels) == rdma_labels(
            textmap::text_values(old(set).labels),
            devices.devices@,
        ),
        textmap::text_values(final(set).annotations) == rdma_annotations(
            textmap::text_values(old(set).annotations),
            text::opt_text(inventory),
        ),
{
    if devices.any_active_roce() {
        insert_text(&mut set.labels, "accel-net.lunnova.dev/rdma", "present".to_owned());
    }
    insert_opt(&mut set.annotations, "accel-net.lunnova.dev/rdma-inventory", inventory);
}

fn count_domains(domains: &Vec<topology::FabricDomain>) -> (r: TextMap<u128>)
    ensures
        counts(r) == tally(domain_sizes(domains@)),
{
    let ghost pairs = domain_sizes(domains@);
    let mut m: TextMap<u128> = TextMap::new();
    let mut i: usize = 0;
    assert(counts(m) =~= tally(pairs.take(0)));
    while i < domains.len()
        invariant
            i <= domains@.len(),
            pairs == domain_sizes(domains@),
            counts(m) == tally(pairs.take(i as int)),
        decreases domains@.len() - i,
    {
        proof {
            assert forall|k: int| 0 <= k < pairs.take(i as int).len() implies (#[trigger] pairs.take(i as int)[k]).1
                <= usize::MAX by {
                assert(pairs.take(i as int)[k].1 == domains@[k].member_accelerators.len());
            }
            assert(pairs.take(i + 1) =~= pairs.take(i as int).push(pairs[i as int]));
        }
        count(
            &mut m,
            domains[i].id.as_str(),
            domains[i].member_accelerators.len(),
            Ghost(pairs.take(i as int)),
        );
        i = i + 1;
    }
    assert(pairs.take(pairs.len() as int) =~= pairs);
    m
}

fn count_accelerators(accels: &Vec<Accelerator>) -> (r: (TextMap<u128>, TextMap<u128>, TextMap<u128>))
    ensures
        counts(r.0) == tally(vendors(accels@)),
        counts(r.1) == tally(model_slugs(accels@)),
        counts(r.2) == tally(memory_kinds(accels@)),
{
    let ghost v = vendors(accels@);
    let ghost s = model_slugs(accels@);
    let ghost k = memory_kinds(accels@);
    let mut by_vendor: TextMap<u128> = TextMap::new();
    let mut by_model: TextMap<u128> = TextMap::new();
    let mut by_kind: TextMap<u128> = TextMap::new();
    let mut i: usize = 0;
    proof {
        assert(counts(by_vendor) =~= tally(v.take(0)));
        assert(counts(by_model) =~= tally(s.take(0)));
        assert(counts(by_kind) =~= tally(k.take(0)));
    }
    while i < accels.len()
        invariant
            i <= accels@.len(),
            v == vendors(accels@),
            s == model_slugs(accels@),
            k == memory_kinds(accels@),
            counts(by_vendor) == tally(v.take(i as int)),
            counts(by_model) == tally(s.take(i as int)),
            counts(by_kind) == tally(k.take(i as int)),
        decreases accels@.len() - i,
    {
        proof {
            assert(v.take(i + 1) =~= v.take(i as int).push(v[i as int]));
            assert(s.take(i + 1) =~= s.take(i as int).push(s[i as int]));
            assert(k.take(i + 1) =~= k.take(i as int).push(k[i as int]));
        }
        count(&mut by_vendor, accels[i].id.vendor.slug(), 1, Ghost(v.take(i as int)));
        count(&mut by_model, slugify(accels[i].model.as_str()).as_str(), 1, Ghost(s.take(i as int)));
        count(&mut by_kind, accels[i].memory_kind.slug(), 1, Ghost(k.take(i as int)));
        i = i + 1;
    }
    proof {
        assert(v.take(v.len() as int) =~= v);
        assert(s.take(s.len() as int) =~= s);
        assert(k.take(k.len() as int) =~= k);
    }
    (by_vendor, by_model, by_kind)
}

// ---------------------------------------------------------------------
// The inventory
// ---------------------------------------------------------------------

/// What the inventory annotation says of an accelerator.
pub struct InventoryEntry {
    pub vendor: String,
    pub model: String,
    pub memory_kind: String,
    pub memory_total_bytes: Option<u64>,
    pub fabric_domain: Option<String>,
    pub numa_node: Option<i32>,
    pub accel_index: u32,
    pub pci_addr: String,
    pub coverage: String,
    pub partitioned: bool,
}

impl InventoryEntry {
    /// The entry says what there is to say of the accelerator `a`.
    pub open spec fn tells_of(self, a: Accelerator) -> bool {
        &&& self.vendor@ == a.id.vendor.name()
        &&& self.model == a.model
        &&& self.memory_kind@ == a.memory_kind.name()
        &&& self.memory_total_bytes == a.memory_total_bytes
        &&& self.fabric_domain == a.fabric_domain
        &&& self.numa_node == a.numa_node
        &&& self.accel_index == a.id.drm_index
        &&& self.pci_addr == a.id.pci_addr
        &&& self.coverage@ == a.coverage.name()
        &&& self.partitioned == a.partitioned
    }

    /// The entry of the accelerator `a`.
    pub fn of(a: &Accelerator) -> (r: Self)
        ensures
            r.tells_of(*a),
    {
        InventoryEntry {
            vendor: a.id.vendor.slug().to_owned(),
            model: a.model.clone(),
            memory_kind: a.memory_kind.slug().to_owned(),
            memory_total_bytes: a.memory_total_bytes,
            fabric_domain: text::clone_opt(&a.fabric_domain),
            numa_node: a.numa_node,
            accel_index: a.id.drm_index,
            pci_addr: a.id.pci_addr.clone(),
            coverage: a.coverage.slug().to_owned(),
            partitioned: a.partitioned,
        }
    }
}

/// The inventory of the accelerators: an entry for each, in their order.
pub fn inventory(accels: &Vec<Accelerator>) -> (r: Vec<InventoryEntry>)
    ensures
        r@.len() == accels@.len(),
        forall|i: int| 0 <= i < r@.len() ==> (#[trigger] r@[i]).tells_of(accels@[i]),
{
    let mut out: Vec<InventoryEntry> = Vec::new();
    let mut i: usize = 0;
    while i < accels.len()
        invariant
            i <= accels@.len(),
            out@.len() == i,
            forall|k: int| 0 <= k < i ==> (#[trigger] out@[k]).tells_of(accels@[k]),
        decreases accels@.len() - i,
    {
        out.push(InventoryEntry::of(&accels[i]));
        i = i + 1;
    }
    out
}

// ---------------------------------------------------------------------
// For people
// ---------------------------------------------------------------------

/// One line of the listing.
pub open spec fn listing_line(key: Seq<char>, value: Seq<char>) -> Seq<char> {
    "  "@ + key + " = "@ + value + "\n"@
}

/// The entries as lines.
pub open spec fn listing(s: Seq<(String, String)>) -> Seq<char>
    decreases s.len(),
{
    if s.len() == 0 {
        Seq::empty()
    } else {
        listing(s.drop_last()) + listing_line(s.last().0@, s.last().1@)
    }
}

/// The first 80 bytes of a text, with an ellipsis where there are more.
pub open spec fn preview(v: Seq<char>) -> Seq<char> {
    if text::utf8_len(v) > 80 {
        v.take(choose|n: int| text::cuts_at(v, n, 80)) + "…"@
    } else {
        v
    }
}

/// A text of more than 80 bytes has a character that ends at the 80th.
pub open spec fn can_preview(v: Seq<char>) -> bool {
    text::utf8_len(v) > 80 ==> exists|n: int| text::cuts_at(v, n, 80)
}

/// The entries as lines, with long values cut.
pub open spec fn preview_listing(s: Seq<(String, String)>) -> Seq<char>
    decreases s.len(),
{
    if s.len() == 0 {
        Seq::empty()
    } else {
        preview_listing(s.drop_last()) + listing_line(s.last().0@, preview(s.last().1@))
    }
}

/// Every value can be cut.
pub open spec fn can_preview_all(s: Seq<(String, String)>) -> bool {
    forall|i: int| 0 <= i < s.len() ==> can_preview((#[trigger] s[i]).1@)
}

fn push_line(out: &mut String, key: &str, value: &str)
    ensures
        final(out)@ == old(out)@ + listing_line(key@, value@),
{
    let ghost before = out@;
    out.append("  ");
    out.append(key);
    out.append(" = ");
    out.append(value);
    out.append("\n");
    assert(out@ =~= before + listing_line(key@, value@));
}

fn preview_of(v: &str) -> (r: String)
    requires
        can_preview(v@),
    ensures
        r@ == preview(v@),
{
    let chars = text::chars_of(v);
    match text::cut_at(chars.as_slice(), 80) {
        Cut::Short => v.to_owned(),
        Cut::At(n) => {
            proof {
                let m = choose|m: int| text::cuts_at(v@, m, 80);
                if m < n {
                    text::lemma_utf8_len_grows(v@, m, n as int);
                }
                if n < m {
                    text::lemma_utf8_len_grows(v@, n as int, m);
                }
                assert(chars@.subrange(0, n as int) =~= v@.take(n as int));
            }
            let head = text::piece(chars.as_slice(), 0, n);
            text::join2(head.as_str(), "…")
        },
        Cut::Inside => v.to_owned(),
    }
}

impl LabelSet {
    /// Whether the set can be listed: no annotation of more than 80 bytes
    /// has a character across the 80th.
    pub fn listable(&self) -> (r: bool)
        ensures
            r == can_preview_all(self.annotations.seq()),
    {
        let entries = self.annotations.entries();
        let mut i: usize = 0;
        while i < entries.len()
            invariant
                i <= entries@.len(),
                entries@ == self.annotations.seq(),
                forall|k: int| 0 <= k < i ==> can_preview((#[trigger] entries@[k]).1@),
            decreases entries@.len() - i,
        {
            let chars = text::chars_of(entries[i].1.as_str());
            match text::cut_at(chars.as_slice(), 80) {
                Cut::Inside => {
                    assert(!can_preview(entries@[i as int].1@));
                    return false;
                },
                _ => {},
            }
            i = i + 1;
        }
        true
    }

    /// The set as lines for people, long annotations cut after 80 bytes.
    pub fn pretty(&self) -> (r: String)
        requires
            can_preview_all(self.annotations.seq()),
        ensures
            r@ == "labels:\n"@ + listing(self.labels.seq()) + "annotations:\n"@ + preview_listing(
                self.annotations.seq(),
            ),
    {
        let mut out: String = "labels:\n".to_owned();
        let labels = self.labels.entries();
        let mut i: usize = 0;
        assert("labels:\n"@ + listing(labels@.take(0)) =~= "labels:\n"@);
        while i < labels.len()
            invariant
                i <= labels@.len(),
                out@ == "labels:\n"@ + listing(labels@.take(i as int)),
            decreases labels@.len() - i,
        {
            let ghost before = out@;
            push_line(&mut out, labels[i].0.as_str(), labels[i].1.as_str());
            proof {
                let t = labels@.take(i + 1);
                assert(t.drop_last() =~= labels@.take(i as int));
                assert(t.last() == labels@[i as int]);
                assert(out@ =~= "labels:\n"@ + listing(t));
            }
            i = i + 1;
        }
        assert(labels@.take(labels@.len() as int) =~= labels@);
        out.append("annotations:\n");
        let ghost head = out@;
        let annotations = self.annotations.entries();
        let mut k: usize = 0;
        assert(head + preview_listing(annotations@.take(0)) =~= head);
        while k < annotations.len()
            invariant
                k <= annotations@.len(),
                can_preview_all(annotations@),
                out@ == head + preview_listing(annotations@.take(k as int)),
            decreases annotations@.len() - k,
        {
            let ghost before = out@;
            assert(can_preview(annotations@[k as int].1@));
            let value = preview_of(annotations[k].1.as_str());
            push_line(&mut out, annotations[k].0.as_str(), value.as_str());
            proof {
                let t = annotations@.take(k + 1);
                assert(t.drop_last() =~= annotations@.take(k as int));
                assert(t.last() == annotations@[k as int]);
                assert(out@ =~= head + preview_listing(t));
            }
            k = k + 1;
        }
        assert(annotations@.take(annotations@.len() as int) =~= annotations@);
        out
    }
}

impl Default for LabelSet {
    fn default() -> (r: Self)
        ensures
            r.labels.seq().len() == 0,
            r.annotations.seq().len() == 0,
    {
        LabelSet { labels: TextMap::new(), annotations: TextMap::new() }
    }
}

} // verus!
