//! What the console reads from the nodes of the cluster: the labels that the
//! daemon writes, and the annotations that the prober writes. The console
//! itself writes nothing.

use crate::k8s::labeler;
use crate::k8s::node;
use crate::k8s::node::{ConditionObject, NodeObject};
use crate::number;
use crate::scan;
use crate::preflight::NodeReadiness;
use crate::prober::annotations;
use crate::prober::annotations::{Family, VerdictModel};
use crate::sensors::Accelerator;
use crate::telemetry::preflight;
use crate::text;
use crate::textmap;
use crate::textmap::TextMap;
use crate::topology::labels;
use crate::topology::rdma::RdmaDevice;
use crate::topology::NodeTopology;
use vstd::prelude::*;

verus! {

// ---------------------------------------------------------------------
// Nodes
// ---------------------------------------------------------------------

/// What the annotations tell of the last probe of a node. The bandwidth
/// stands as it was written.
#[derive(Debug)]
pub struct ProbeRecord {
    pub at: Option<String>,
    pub bandwidth_gbps: Option<String>,
    pub partner: Option<String>,
    pub verdict: Option<String>,
}

/// A condition of a node.
#[derive(Debug)]
pub struct NodeCondition {
    pub kind: String,
    pub status: String,
    pub reason: Option<String>,
}

/// A node as the console shows it.
pub struct NodeView {
    pub name: String,
    pub rack: Option<String>,
    pub block: Option<String>,
    pub vendor_counts: TextMap<u64>,
    pub model_counts: TextMap<u64>,
    pub total_accelerators: Option<u64>,
    pub fabric_domains: u64,
    pub last_probe: Option<ProbeRecord>,
    pub conditions: Vec<NodeCondition>,
    pub ready: bool,
    pub schedulable: bool,
    pub kubelet_version: Option<String>,
    pub topo_labels: TextMap<String>,
}

/// The model of the last probe.
#[verifier::ext_equal]
pub struct ProbeModel {
    pub at: Option<Seq<char>>,
    pub bandwidth_gbps: Option<Seq<char>>,
    pub partner: Option<Seq<char>>,
    pub verdict: Option<Seq<char>>,
}

/// The model of a condition.
#[verifier::ext_equal]
pub struct ConditionModel {
    pub kind: Seq<char>,
    pub status: Seq<char>,
    pub reason: Option<Seq<char>>,
}

/// The model of a node.
#[verifier::ext_equal]
pub struct NodeModel {
    pub name: Seq<char>,
    pub rack: Option<Seq<char>>,
    pub block: Option<Seq<char>>,
    pub vendor_counts: Map<Seq<char>, nat>,
    pub model_counts: Map<Seq<char>, nat>,
    pub total_accelerators: Option<nat>,
    pub fabric_domains: nat,
    pub last_probe: Option<ProbeModel>,
    pub conditions: Seq<ConditionModel>,
    pub ready: bool,
    pub schedulable: bool,
    pub kubelet_version: Option<Seq<char>>,
    pub topo_labels: Map<Seq<char>, Seq<char>>,
}

/// The counts held by a map.
pub open spec fn counts(m: TextMap<u64>) -> Map<Seq<char>, nat> {
    m@.map_values(|n: u64| n as nat)
}

impl View for ProbeRecord {
    type V = ProbeModel;

    open spec fn view(&self) -> ProbeModel {
        ProbeModel {
            at: text::opt_text(self.at),
            bandwidth_gbps: text::opt_text(self.bandwidth_gbps),
            partner: text::opt_text(self.partner),
            verdict: text::opt_text(self.verdict),
        }
    }
}

impl View for NodeCondition {
    type V = ConditionModel;

    open spec fn view(&self) -> ConditionModel {
        ConditionModel { kind: self.kind@, status: self.status@, reason: text::opt_text(self.reason) }
    }
}

/// The model of the last probe, where there is one.
pub open spec fn opt_probe(p: Option<ProbeRecord>) -> Option<ProbeModel> {
    match p {
        Some(r) => Some(r@),
        None => None,
    }
}

/// The models of conditions.
pub open spec fn condition_models(v: Seq<NodeCondition>) -> Seq<ConditionModel> {
    v.map_values(|c: NodeCondition| c@)
}

impl View for NodeView {
    type V = NodeModel;

    open spec fn view(&self) -> NodeModel {
        NodeModel {
            name: self.name@,
            rack: text::opt_text(self.rack),
            block: text::opt_text(self.block),
            vendor_counts: counts(self.vendor_counts),
            model_counts: counts(self.model_counts),
            total_accelerators: match self.total_accelerators {
                Some(n) => Some(n as nat),
                None => None,
            },
            fabric_domains: self.fabric_domains as nat,
            last_probe: opt_probe(self.last_probe),
            conditions: condition_models(self.conditions@),
            ready: self.ready,
            schedulable: self.schedulable,
            kubelet_version: text::opt_text(self.kubelet_version),
            topo_labels: textmap::text_values(self.topo_labels),
        }
    }
}

/// The models of nodes.
pub open spec fn node_models(v: Seq<NodeView>) -> Seq<NodeModel> {
    v.map_values(|n: NodeView| n@)
}

/// The labels of a node.
pub open spec fn label_map(m: Option<TextMap<String>>) -> Map<Seq<char>, Seq<char>> {
    match m {
        Some(t) => textmap::text_values(t),
        None => Map::empty(),
    }
}

/// A 64-bit number in a text.
pub open spec fn u64_of(s: Seq<char>) -> Option<nat> {
    number::bounded_of(s, 10, u64::MAX as nat)
}

/// A 64-bit number in a text, where there is one.
pub open spec fn opt_u64_of(s: Option<Seq<char>>) -> Option<nat> {
    match s {
        Some(t) => u64_of(t),
        None => None,
    }
}

/// The counts in labels `<prefix><key><suffix>`, by their keys. Labels
/// without a number do not count.
pub open spec fn counts_in(
    labels: Map<Seq<char>, Seq<char>>,
    prefix: Seq<char>,
    suffix: Seq<char>,
) -> Map<Seq<char>, nat> {
    Map::new(
        |k: Seq<char>|
            labels.contains_key(prefix + k + suffix) && u64_of(labels[prefix + k + suffix]) is Some,
        |k: Seq<char>| u64_of(labels[prefix + k + suffix])->0,
    )
}

/// The label is one of this project.
pub open spec fn is_own_label(key: Seq<char>) -> bool {
    ||| scan::has_prefix(key, "accel-topo.lunnova.dev/"@)
    ||| scan::has_prefix(key, "accel.lunnova.dev/"@)
    ||| scan::has_prefix(key, "accel-test.lunnova.dev/"@)
}

/// The labels of this project among others.
pub open spec fn own_labels(labels: Map<Seq<char>, Seq<char>>) -> Map<Seq<char>, Seq<char>> {
    Map::new(|k: Seq<char>| labels.contains_key(k) && is_own_label(k), |k: Seq<char>| labels[k])
}

/// The figure in an annotation, where there is a number in it.
pub open spec fn figure_in(annotations: Option<TextMap<String>>, key: Seq<char>) -> Option<Seq<char>> {
    match node::lookup(annotations, key) {
        Some(s) => if number::is_float_literal(s) {
            Some(s)
        } else {
            None
        },
        None => None,
    }
}

/// The probe, if it tells anything.
pub open spec fn told(probe: ProbeModel) -> Option<ProbeModel> {
    if probe.at is None && probe.bandwidth_gbps is None && probe.partner is None && probe.verdict is None {
        None
    } else {
        Some(probe)
    }
}

/// What the annotations tell of the last probe with another node. The
/// bandwidth is the one under the long name; where there is none, it is the
/// one that the prober writes.
pub open spec fn pair_probe_in(annotations: Option<TextMap<String>>) -> Option<ProbeModel> {
    told(
        ProbeModel {
            at: node::lookup(annotations, "accel-test.lunnova.dev/last-rack-at"@),
            bandwidth_gbps: match figure_in(annotations, "accel-test.lunnova.dev/last-rack-bandwidth-gbps"@) {
                Some(s) => Some(s),
                None => figure_in(annotations, "accel-test.lunnova.dev/last-rack-bw-gbps"@),
            },
            partner: node::lookup(annotations, "accel-test.lunnova.dev/last-rack-partner"@),
            verdict: node::lookup(annotations, "accel-test.lunnova.dev/last-rack-verdict"@),
        },
    )
}

/// What the annotations tell of the last probe of the node by itself.
pub open spec fn loopback_probe_in(annotations: Option<TextMap<String>>) -> Option<ProbeModel> {
    told(
        ProbeModel {
            at: node::lookup(annotations, "accel-test.lunnova.dev/last-loopback-at"@),
            bandwidth_gbps: figure_in(annotations, "accel-test.lunnova.dev/last-loopback-bw-gbps"@),
            partner: None,
            verdict: node::lookup(annotations, "accel-test.lunnova.dev/last-loopback-verdict"@),
        },
    )
}

/// What the annotations tell of the last probe: of one with another node, or
/// else of one of the node by itself.
pub open spec fn probe_in(annotations: Option<TextMap<String>>) -> Option<ProbeModel> {
    match pair_probe_in(annotations) {
        Some(p) => Some(p),
        None => loopback_probe_in(annotations),
    }
}

/// The conditions of a node.
pub open spec fn conditions_in(c: Option<Vec<ConditionObject>>) -> Seq<ConditionModel> {
    match c {
        Some(v) => v@.map_values(
            |c: ConditionObject|
                ConditionModel { kind: c.kind@, status: c.status@, reason: text::opt_text(c.reason) },
        ),
        None => Seq::empty(),
    }
}

/// A node as the console shows it.
pub open spec fn view_of(n: NodeObject) -> NodeModel {
    NodeModel {
        name: match n.name {
            Some(s) => s@,
            None => Seq::empty(),
        },
        rack: node::lookup(n.labels, "accel-topo.lunnova.dev/rack"@),
        block: node::lookup(n.labels, "accel-topo.lunnova.dev/block"@),
        vendor_counts: counts_in(label_map(n.labels), "accel.lunnova.dev/vendor."@, ".count"@),
        model_counts: counts_in(label_map(n.labels), "accel.lunnova.dev/model."@, ".count"@),
        total_accelerators: opt_u64_of(node::lookup(n.labels, "accel.lunnova.dev/total-count"@)),
        fabric_domains: match opt_u64_of(
            node::lookup(n.labels, "accel-topo.lunnova.dev/fabric-domains-count"@),
        ) {
            Some(d) => d,
            None => 0,
        },
        last_probe: probe_in(n.annotations),
        conditions: conditions_in(n.conditions),
        ready: node::node_ready(n),
        schedulable: !n.unschedulable,
        kubelet_version: text::opt_text(n.kubelet_version),
        topo_labels: own_labels(label_map(n.labels)),
    }
}

impl ProbeRecord {
    /// Nothing is told.
    pub fn is_empty(&self) -> (r: bool)
        ensures
            r == (self.at is None && self.bandwidth_gbps is None && self.partner is None
                && self.verdict is None),
    {
        self.at.is_none() && self.bandwidth_gbps.is_none() && self.partner.is_none()
            && self.verdict.is_none()
    }
}

/// One of the first `n` entries is the label of `key`, with a number.
spec fn counted(s: Seq<(String, String)>, n: int, prefix: Seq<char>, suffix: Seq<char>, key: Seq<char>) -> bool {
    exists|j: int| 0 <= j < n && counts_at(s, j, prefix, suffix, key)
}

/// Entry `j` is the label of `key`, with a number.
spec fn counts_at(
    s: Seq<(String, String)>,
    j: int,
    prefix: Seq<char>,
    suffix: Seq<char>,
    key: Seq<char>,
) -> bool {
    s[j].0@ == prefix + key + suffix && u64_of(s[j].1@) is Some
}

fn count_labels(labels: &TextMap<String>, prefix: &str, suffix: &str) -> (r: TextMap<u64>)
    ensures
        counts(r) == counts_in(textmap::text_values(*labels), prefix@, suffix@),
{
    let entries = labels.entries();
    let ghost s = entries@;
    let ghost (p, q) = (prefix@, suffix@);
    let mut out: TextMap<u64> = TextMap::new();
    let mut i: usize = 0;
    while i < entries.len()
        invariant
            i <= entries@.len(),
            s == entries@,
            p == prefix@,
            q == suffix@,
            textmap::increasing(s),
            forall|k: Seq<char>| #[trigger] out@.contains_key(k) <==> counted(s, i as int, p, q, k),
            forall|j: int, k: Seq<char>|
                0 <= j < i && #[trigger] counts_at(s, j, p, q, k) ==> out@[k] == u64_of(s[j].1@)->0,
        decreases entries@.len() - i,
    {
        let ghost before = out@;
        let ghost mut hit: Option<Seq<char>> = None;
        match scan::strip_prefix(entries[i].0.as_str(), prefix) {
            Some(rest) => {
                match scan::strip_suffix(rest.as_str(), suffix) {
                    Some(key) => {
                        match number::parse_u64(entries[i].1.as_str()) {
                            Some(count) => {
                                proof {
                                    hit = Some(key@);
                                    assert(s[i as int].0@ =~= p + key@ + q);
                                }
                                out.insert(key, count);
                            },
                            None => {},
                        }
                    },
                    None => {},
                }
            },
            None => {},
        }
        proof {
            assert forall|k: Seq<char>| counts_at(s, i as int, p, q, k) == (hit == Some(k)) by {
                let name = s[i as int].0@;
                if counts_at(s, i as int, p, q, k) {
                    assert(name == p + k + q);
                    assert(name.subrange(0, p.len() as int) =~= p);
                    let rest = name.subrange(p.len() as int, name.len() as int);
                    assert(rest =~= k + q);
                    assert(rest.subrange(rest.len() - q.len(), rest.len() as int) =~= q);
                    assert(rest.subrange(0, rest.len() - q.len()) =~= k);
                }
            }
            assert forall|k: Seq<char>| #[trigger] out@.contains_key(k) <==> counted(s, i + 1, p, q, k) by {
                if counted(s, i + 1, p, q, k) {
                    let j = choose|j: int| 0 <= j < i + 1 && counts_at(s, j, p, q, k);
                    if j < i {
                        assert(counted(s, i as int, p, q, k));
                    }
                }
                if counted(s, i as int, p, q, k) {
                    let j = choose|j: int| 0 <= j < i && counts_at(s, j, p, q, k);
                    assert(0 <= j < i + 1 && counts_at(s, j, p, q, k));
                }
                if hit == Some(k) {
                    assert(0 <= i < i + 1 && counts_at(s, i as int, p, q, k));
                } else {
                    assert(out@.contains_key(k) == before.contains_key(k));
                    assert(before.contains_key(k) <==> counted(s, i as int, p, q, k));
                }
            }
            assert forall|j: int, k: Seq<char>|
                0 <= j < i + 1 && #[trigger] counts_at(s, j, p, q, k) implies out@[k] == u64_of(s[j].1@)->0 by {
                if j < i && hit == Some(k) {
                    assert(counts_at(s, i as int, p, q, k));
                    textmap::lemma_key_once(s, j, i as int);
                }
            }
        }
        i = i + 1;
    }
    proof {
        let all = textmap::text_values(*labels);
        let want = counts_in(all, p, q);
        let got = counts(out);
        assert forall|k: Seq<char>| got.contains_key(k) == want.contains_key(k) by {
            let name = p + k + q;
            if counted(s, s.len() as int, p, q, k) {
                let j = choose|j: int| 0 <= j < s.len() && counts_at(s, j, p, q, k);
                textmap::lemma_map_at(s, j);
            }
            if want.contains_key(k) {
                let j = choose|j: int| textmap::key_at(s, name, j);
                textmap::lemma_map_at(s, j);
                assert(counts_at(s, j, p, q, k));
            }
        }
        assert forall|k: Seq<char>| got.contains_key(k) implies got[k] == want[k] by {
            let j = choose|j: int| 0 <= j < s.len() && counts_at(s, j, p, q, k);
            textmap::lemma_map_at(s, j);
        }
        assert(got =~= want);
    }
    out
}

/// The counts in labels `<prefix><key><suffix>`, by their keys.
pub fn parse_count_labels(labels: &Option<TextMap<String>>, prefix: &str, suffix: &str) -> (r: TextMap<
    u64,
>)
    ensures
        counts(r) == counts_in(label_map(*labels), prefix@, suffix@),
{
    match labels {
        Some(t) => count_labels(t, prefix, suffix),
        None => {
            let r: TextMap<u64> = TextMap::new();
            assert(counts(r) =~= counts_in(Map::empty(), prefix@, suffix@));
            r
        },
    }
}

fn own_label(key: &str) -> (r: bool)
    ensures
        r == is_own_label(key@),
{
    scan::starts_with(key, "accel-topo.lunnova.dev/") || scan::starts_with(key, "accel.lunnova.dev/")
        || scan::starts_with(key, "accel-test.lunnova.dev/")
}

/// One of the first `n` entries has the key.
spec fn key_among(s: Seq<(String, String)>, n: int, key: Seq<char>) -> bool {
    exists|j: int| 0 <= j < n && textmap::key_at(s, key, j)
}

fn pick_own(labels: &TextMap<String>) -> (r: TextMap<String>)
    ensures
        textmap::text_values(r) == own_labels(textmap::text_values(*labels)),
{
    let entries = labels.entries();
    let ghost s = entries@;
    let mut out: TextMap<String> = TextMap::new();
    let mut i: usize = 0;
    while i < entries.len()
        invariant
            i <= entries@.len(),
            s == entries@,
            textmap::increasing(s),
            forall|k: Seq<char>| #[trigger]
                out@.contains_key(k) <==> key_among(s, i as int, k) && is_own_label(k),
            forall|j: int| 0 <= j < i && is_own_label(s[j].0@) ==> out@[s[j].0@] == (#[trigger] s[j]).1,
        decreases entries@.len() - i,
    {
        if own_label(entries[i].0.as_str()) {
            out.insert(entries[i].0.clone(), entries[i].1.clone());
        }
        proof {
            let here = s[i as int].0@;
            assert forall|k: Seq<char>| #[trigger]
                out@.contains_key(k) <==> key_among(s, i + 1, k) && is_own_label(k) by {
                if key_among(s, i + 1, k) {
                    let j = choose|j: int| 0 <= j < i + 1 && textmap::key_at(s, k, j);
                    if j < i {
                        assert(key_among(s, i as int, k));
                    }
                }
                if key_among(s, i as int, k) {
                    let j = choose|j: int| 0 <= j < i && textmap::key_at(s, k, j);
                    assert(0 <= j < i + 1 && textmap::key_at(s, k, j));
                }
                assert(textmap::key_at(s, here, i as int));
            }
            assert forall|j: int| 0 <= j < i + 1 && is_own_label(s[j].0@) implies out@[s[j].0@] == (
            #[trigger] s[j]).1 by {
                if j < i && s[j].0@ == here {
                    textmap::lemma_key_once(s, j, i as int);
                }
            }
        }
        i = i + 1;
    }
    proof {
        let all = textmap::text_values(*labels);
        let want = own_labels(all);
        let got = textmap::text_values(out);
        assert forall|k: Seq<char>| got.contains_key(k) == want.contains_key(k) by {
            if key_among(s, s.len() as int, k) {
                let j = choose|j: int| 0 <= j < s.len() && textmap::key_at(s, k, j);
                assert(textmap::key_at(s, k, j));
            }
            if all.contains_key(k) {
                let j = choose|j: int| textmap::key_at(s, k, j);
                assert(0 <= j < s.len() && textmap::key_at(s, k, j));
            }
        }
        assert forall|k: Seq<char>| got.contains_key(k) implies got[k] == want[k] by {
            let j = choose|j: int| 0 <= j < s.len() && textmap::key_at(s, k, j);
            textmap::lemma_map_at(s, j);
            assert(s[j].0@ == k);
        }
        assert(got =~= want);
    }
    out
}

fn figure_of(annotations: &Option<TextMap<String>>, key: &str) -> (r: Option<String>)
    ensures
        text::opt_text(r) == figure_in(*annotations, key@),
{
    match node::value_of(annotations, key) {
        Some(s) => if number::float_literal(s.as_str()) {
            Some(s)
        } else {
            None
        },
        None => None,
    }
}

fn if_told(probe: ProbeRecord) -> (r: Option<ProbeRecord>)
    ensures
        opt_probe(r) == told(probe@),
{
    if probe.is_empty() {
        None
    } else {
        Some(probe)
    }
}

fn probe_of(annotations: &Option<TextMap<String>>) -> (r: Option<ProbeRecord>)
    ensures
        opt_probe(r) == probe_in(*annotations),
{
    let pair = if_told(
        ProbeRecord {
            at: node::value_of(annotations, "accel-test.lunnova.dev/last-rack-at"),
            bandwidth_gbps: match figure_of(annotations, "accel-test.lunnova.dev/last-rack-bandwidth-gbps") {
                Some(s) => Some(s),
                None => figure_of(annotations, "accel-test.lunnova.dev/last-rack-bw-gbps"),
            },
            partner: node::value_of(annotations, "accel-test.lunnova.dev/last-rack-partner"),
            verdict: node::value_of(annotations, "accel-test.lunnova.dev/last-rack-verdict"),
        },
    );
    if pair.is_some() {
        return pair;
    }
    if_told(
        ProbeRecord {
            at: node::value_of(annotations, "accel-test.lunnova.dev/last-loopback-at"),
            bandwidth_gbps: figure_of(annotations, "accel-test.lunnova.dev/last-loopback-bw-gbps"),
            partner: None,
            verdict: node::value_of(annotations, "accel-test.lunnova.dev/last-loopback-verdict"),
        },
    )
}

fn conditions_of(c: &Option<Vec<ConditionObject>>) -> (r: Vec<NodeCondition>)
    ensures
        condition_models(r@) == conditions_in(*c),
{
    let mut out: Vec<NodeCondition> = Vec::new();
    let ghost want = conditions_in(*c);
    match c {
        Some(v) => {
            let mut i: usize = 0;
            while i < v.len()
                invariant
                    i <= v@.len(),
                    condition_models(out@) == conditions_in(*c).take(i as int),
                    *c == Some(*v),
                decreases v@.len() - i,
            {
                let ghost before = condition_models(out@);
                out.push(
                    NodeCondition {
                        kind: v[i].kind.clone(),
                        status: v[i].status.clone(),
                        reason: text::clone_opt(&v[i].reason),
                    },
                );
                i = i + 1;
                proof {
                    let all = conditions_in(*c);
                    assert(condition_models(out@) =~= before.push(all[i - 1]));
                    assert(all.take(i as int) =~= before.push(all[i - 1]));
                }
            }
            assert(want.take(want.len() as int) =~= want);
        },
        None => {
            assert(condition_models(out@) =~= want);
        },
    }
    out
}

fn opt_u64(s: Option<String>) -> (r: Option<u64>)
    ensures
        match r {
            Some(n) => opt_u64_of(text::opt_text(s)) == Some(n as nat),
            None => opt_u64_of(text::opt_text(s)) is None,
        },
{
    match s {
        Some(t) => number::parse_u64(t.as_str()),
        None => None,
    }
}

impl NodeView {
    /// The node as the console shows it.
    pub fn from_node(n: &NodeObject) -> (r: Self)
        ensures
            r@ == view_of(*n),
    {
        let name = match &n.name {
            Some(s) => s.clone(),
            None => {
                let s = String::new();
                assert(s@ =~= Seq::empty());
                s
            },
        };
        let domains = opt_u64(node::value_of(&n.labels, "accel-topo.lunnova.dev/fabric-domains-count"));
        let topo_labels = match &n.labels {
            Some(t) => pick_own(t),
            None => {
                let r: TextMap<String> = TextMap::new();
                assert(textmap::text_values(r) =~= own_labels(Map::empty()));
                r
            },
        };
        NodeView {
            name,
            rack: node::value_of(&n.labels, "accel-topo.lunnova.dev/rack"),
            block: node::value_of(&n.labels, "accel-topo.lunnova.dev/block"),
            vendor_counts: parse_count_labels(&n.labels, "accel.lunnova.dev/vendor.", ".count"),
            model_counts: parse_count_labels(&n.labels, "accel.lunnova.dev/model.", ".count"),
            total_accelerators: opt_u64(node::value_of(&n.labels, "accel.lunnova.dev/total-count")),
            fabric_domains: match domains {
                Some(d) => d,
                None => 0,
            },
            last_probe: probe_of(&n.annotations),
            conditions: conditions_of(&n.conditions),
            ready: node::is_ready(n),
            schedulable: !n.unschedulable,
            kubelet_version: text::clone_opt(&n.kubelet_version),
            topo_labels,
        }
    }
}

/// The nodes as the console shows them, in their order.
pub fn list_nodes(nodes: &Vec<NodeObject>) -> (r: Vec<NodeView>)
    ensures
        node_models(r@) == nodes@.map_values(|n: NodeObject| view_of(n)),
{
    let mut out: Vec<NodeView> = Vec::new();
    let ghost want = nodes@.map_values(|n: NodeObject| view_of(n));
    let mut i: usize = 0;
    assert(node_models(out@) =~= want.take(0));
    while i < nodes.len()
        invariant
            i <= nodes@.len(),
            want == nodes@.map_values(|n: NodeObject| view_of(n)),
            node_models(out@) == want.take(i as int),
        decreases nodes@.len() - i,
    {
        let ghost before = node_models(out@);
        out.push(NodeView::from_node(&nodes[i]));
        i = i + 1;
        assert(node_models(out@) =~= before.push(want[i - 1]));
        assert(want.take(i as int) =~= before.push(want[i - 1]));
    }
    assert(want.take(want.len() as int) =~= want);
    out
}

// ---------------------------------------------------------------------
// The cluster at a glance
// ---------------------------------------------------------------------

/// A rack at a glance.
#[derive(Debug)]
pub struct RackSummary {
    pub nodes: Vec<String>,
    pub healthy_probes: usize,
    pub failed_probes: usize,
}

impl Default for RackSummary {
    fn default() -> (r: Self)
        ensures
            r.nodes@.len() == 0,
            r.healthy_probes == 0,
            r.failed_probes == 0,
    {
        RackSummary { nodes: Vec::new(), healthy_probes: 0, failed_probes: 0 }
    }
}

/// The cluster at a glance.
pub struct ClusterSummary {
    pub nodes_total: usize,
    pub nodes_ready: usize,
    pub racks: TextMap<RackSummary>,
    pub probe_verdicts: TextMap<usize>,
    pub vendor_totals: TextMap<u64>,
}

/// The model of a rack at a glance.
#[verifier::ext_equal]
pub struct RackModel {
    pub nodes: Seq<Seq<char>>,
    pub healthy_probes: nat,
    pub failed_probes: nat,
}

/// The model of the cluster at a glance.
#[verifier::ext_equal]
pub struct SummaryModel {
    pub nodes_total: nat,
    pub nodes_ready: nat,
    pub racks: Map<Seq<char>, RackModel>,
    pub probe_verdicts: Map<Seq<char>, nat>,
    pub vendor_totals: Map<Seq<char>, nat>,
}

impl View for RackSummary {
    type V = RackModel;

    open spec fn view(&self) -> RackModel {
        RackModel {
            nodes: text::texts(self.nodes@),
            healthy_probes: self.healthy_probes as nat,
            failed_probes: self.failed_probes as nat,
        }
    }
}

/// The models of racks.
pub open spec fn rack_models(m: TextMap<RackSummary>) -> Map<Seq<char>, RackModel> {
    m@.map_values(|r: RackSummary| r@)
}

/// The numbers held by a map.
pub open spec fn sizes(m: TextMap<usize>) -> Map<Seq<char>, nat> {
    m@.map_values(|n: usize| n as nat)
}

impl View for ClusterSummary {
    type V = SummaryModel;

    open spec fn view(&self) -> SummaryModel {
        SummaryModel {
            nodes_total: self.nodes_total as nat,
            nodes_ready: self.nodes_ready as nat,
            racks: rack_models(self.racks),
            probe_verdicts: sizes(self.probe_verdicts),
            vendor_totals: counts(self.vendor_totals),
        }
    }
}

/// How many nodes are such.
pub open spec fn how_many(nodes: Seq<NodeModel>, such: spec_fn(NodeModel) -> bool) -> nat
    decreases nodes.len(),
{
    if nodes.len() == 0 {
        0
    } else {
        how_many(nodes.drop_last(), such) + if such(nodes.last()) {
            1nat
        } else {
            0nat
        }
    }
}

/// The verdict of a node's last probe.
pub open spec fn verdict_of(n: NodeModel) -> Option<Seq<char>> {
    match n.last_probe {
        Some(p) => p.verdict,
        None => None,
    }
}

/// The verdict is a good one.
pub open spec fn is_healthy(verdict: Seq<char>) -> bool {
    verdict == "pass"@ || verdict == "ok"@
}

/// Nodes that are ready.
pub open spec fn readiness() -> spec_fn(NodeModel) -> bool {
    |n: NodeModel| n.ready
}

/// Nodes of the rack.
pub open spec fn in_rack(rack: Seq<char>) -> spec_fn(NodeModel) -> bool {
    |n: NodeModel| n.rack == Some(rack)
}

/// Nodes of the rack whose last probe went well.
pub open spec fn healthy_in_rack(rack: Seq<char>) -> spec_fn(NodeModel) -> bool {
    |n: NodeModel| n.rack == Some(rack) && verdict_of(n) is Some && is_healthy(verdict_of(n)->0)
}

/// Nodes of the rack whose last probe did not go well.
pub open spec fn failed_in_rack(rack: Seq<char>) -> spec_fn(NodeModel) -> bool {
    |n: NodeModel| n.rack == Some(rack) && verdict_of(n) is Some && !is_healthy(verdict_of(n)->0)
}

/// Nodes whose last probe had the verdict.
pub open spec fn with_verdict(verdict: Seq<char>) -> spec_fn(NodeModel) -> bool {
    |n: NodeModel| verdict_of(n) == Some(verdict)
}

/// Nodes that count accelerators of the vendor.
pub open spec fn with_vendor(vendor: Seq<char>) -> spec_fn(NodeModel) -> bool {
    |n: NodeModel| n.vendor_counts.contains_key(vendor)
}

/// The names of the nodes of a rack, in their order.
pub open spec fn names_in(nodes: Seq<NodeModel>, rack: Seq<char>) -> Seq<Seq<char>>
    decreases nodes.len(),
{
    if nodes.len() == 0 {
        Seq::empty()
    } else {
        let head = names_in(nodes.drop_last(), rack);
        if nodes.last().rack == Some(rack) {
            head.push(nodes.last().name)
        } else {
            head
        }
    }
}

/// The racks at a glance.
pub open spec fn racks_of(nodes: Seq<NodeModel>) -> Map<Seq<char>, RackModel> {
    Map::new(
        |rack: Seq<char>| how_many(nodes, in_rack(rack)) > 0,
        |rack: Seq<char>|
            RackModel {
                nodes: names_in(nodes, rack),
                healthy_probes: how_many(nodes, healthy_in_rack(rack)),
                failed_probes: how_many(nodes, failed_in_rack(rack)),
            },
    )
}

/// How often each verdict occurs.
pub open spec fn verdicts_of(nodes: Seq<NodeModel>) -> Map<Seq<char>, nat> {
    Map::new(
        |v: Seq<char>| how_many(nodes, with_verdict(v)) > 0,
        |v: Seq<char>| how_many(nodes, with_verdict(v)),
    )
}

/// How many accelerators of a vendor a node counts.
pub open spec fn vendor_count(n: NodeModel, vendor: Seq<char>) -> nat {
    if n.vendor_counts.contains_key(vendor) {
        n.vendor_counts[vendor]
    } else {
        0
    }
}

/// How many accelerators of a vendor the nodes count.
pub open spec fn vendor_sum(nodes: Seq<NodeModel>, vendor: Seq<char>) -> nat
    decreases nodes.len(),
{
    if nodes.len() == 0 {
        0
    } else {
        vendor_sum(nodes.drop_last(), vendor) + vendor_count(nodes.last(), vendor)
    }
}

/// How many accelerators of each vendor there are, in the arithmetic of
/// 64-bit integers.
pub open spec fn vendors_of(nodes: Seq<NodeModel>) -> Map<Seq<char>, nat> {
    Map::new(
        |v: Seq<char>| how_many(nodes, with_vendor(v)) > 0,
        |v: Seq<char>| vendor_sum(nodes, v) % 0x1_0000_0000_0000_0000,
    )
}

/// The cluster at a glance.
pub open spec fn summary_of(nodes: Seq<NodeModel>) -> SummaryModel {
    SummaryModel {
        nodes_total: nodes.len(),
        nodes_ready: how_many(nodes, readiness()),
        racks: racks_of(nodes),
        probe_verdicts: verdicts_of(nodes),
        vendor_totals: vendors_of(nodes),
    }
}

proof fn lemma_how_many_push(nodes: Seq<NodeModel>, n: NodeModel, such: spec_fn(NodeModel) -> bool)
    ensures
        how_many(nodes.push(n), such) == how_many(nodes, such) + if such(n) {
            1nat
        } else {
            0nat
        },
{
    assert(nodes.push(n).drop_last() =~= nodes);
}

proof fn lemma_how_many_bound(nodes: Seq<NodeModel>, such: spec_fn(NodeModel) -> bool)
    ensures
        how_many(nodes, such) <= nodes.len(),
    decreases nodes.len(),
{
    if nodes.len() > 0 {
        lemma_how_many_bound(nodes.drop_last(), such);
    }
}

proof fn lemma_no_node_in_rack(nodes: Seq<NodeModel>, rack: Seq<char>)
    requires
        how_many(nodes, in_rack(rack)) == 0,
    ensures
        names_in(nodes, rack) == Seq::<Seq<char>>::empty(),
        how_many(nodes, healthy_in_rack(rack)) == 0,
        how_many(nodes, failed_in_rack(rack)) == 0,
    decreases nodes.len(),
{
    if nodes.len() > 0 {
        let last = nodes.last();
        assert(!in_rack(rack)(last));
        lemma_no_node_in_rack(nodes.drop_last(), rack);
        assert(!healthy_in_rack(rack)(last));
        assert(!failed_in_rack(rack)(last));
    }
}

proof fn lemma_no_vendor(nodes: Seq<NodeModel>, vendor: Seq<char>)
    requires
        how_many(nodes, with_vendor(vendor)) == 0,
    ensures
        vendor_sum(nodes, vendor) == 0,
    decreases nodes.len(),
{
    if nodes.len() > 0 {
        assert(!with_vendor(vendor)(nodes.last()));
        lemma_no_vendor(nodes.drop_last(), vendor);
    }
}

/// Notes the rack of a node. `before` is what was noted before.
fn note_rack(racks: &mut TextMap<RackSummary>, n: &NodeView, Ghost(before): Ghost<Seq<NodeModel>>)
    requires
        rack_models(*old(racks)) == racks_of(before),
        before.len() < usize::MAX,
    ensures
        rack_models(*final(racks)) == racks_of(before.push(n@)),
{
    let ghost was = rack_models(*racks);
    let ghost node = n@;
    let ghost after = before.push(node);
    proof {
        assert forall|r: Seq<char>| node.rack != Some(r) implies (#[trigger] racks_of(after).contains_key(r)
            == racks_of(before).contains_key(r)) && (racks_of(after).contains_key(r) ==> racks_of(after)[r]
            == racks_of(before)[r]) by {
            lemma_how_many_push(before, node, in_rack(r));
            lemma_how_many_push(before, node, healthy_in_rack(r));
            lemma_how_many_push(before, node, failed_in_rack(r));
            assert(after.drop_last() =~= before);
            assert(!in_rack(r)(node) && !healthy_in_rack(r)(node) && !failed_in_rack(r)(node));
        }
    }
    match &n.rack {
        Some(rack) => {
            let ghost r = rack@;
            proof {
                lemma_how_many_push(before, node, in_rack(r));
                lemma_how_many_push(before, node, healthy_in_rack(r));
                lemma_how_many_push(before, node, failed_in_rack(r));
                lemma_how_many_bound(before, healthy_in_rack(r));
                lemma_how_many_bound(before, failed_in_rack(r));
                assert(after.drop_last() =~= before);
                assert(in_rack(r)(node));
                if !was.contains_key(r) {
                    lemma_no_node_in_rack(before, r);
                }
            }
            let ghost kept = racks@;
            let mut entry = match racks.remove(rack.as_str()) {
                Some(e) => {
                    assert(was[r] == e@);
                    e
                },
                None => {
                    let e: RackSummary = Default::default();
                    assert(text::texts(e.nodes@) =~= Seq::empty());
                    assert(!was.contains_key(r));
                    e
                },
            };
            assert(entry@ == RackModel {
                nodes: names_in(before, r),
                healthy_probes: how_many(before, healthy_in_rack(r)),
                failed_probes: how_many(before, failed_in_rack(r)),
            });
            let ghost names = text::texts(entry.nodes@);
            entry.nodes.push(n.name.clone());
            assert(text::texts(entry.nodes@) =~= names.push(node.name));
            match &n.last_probe {
                Some(p) => match &p.verdict {
                    Some(v) => if text::same(v.as_str(), "pass") || text::same(v.as_str(), "ok") {
                        entry.healthy_probes = entry.healthy_probes + 1;
                        assert(healthy_in_rack(r)(node) && !failed_in_rack(r)(node));
                    } else {
                        entry.failed_probes = entry.failed_probes + 1;
                        assert(!healthy_in_rack(r)(node) && failed_in_rack(r)(node));
                    },
                    None => {
                        assert(!healthy_in_rack(r)(node) && !failed_in_rack(r)(node));
                    },
                },
                None => {
                    assert(!healthy_in_rack(r)(node) && !failed_in_rack(r)(node));
                },
            }
            let ghost m = entry@;
            racks.insert(rack.clone(), entry);
            proof {
                assert(rack_models(*racks) =~= was.insert(r, m));
                assert(racks_of(after).contains_key(r));
                assert(racks_of(after)[r] == m);
                assert(was.insert(r, m) =~= racks_of(after));
            }
        },
        None => {
            assert(racks_of(after) =~= was);
        },
    }
}

/// Notes the verdict of a node. `before` is what was noted before.
fn note_verdict(verdicts: &mut TextMap<usize>, n: &NodeView, Ghost(before): Ghost<Seq<NodeModel>>)
    requires
        sizes(*old(verdicts)) == verdicts_of(before),
        before.len() < usize::MAX,
    ensures
        sizes(*final(verdicts)) == verdicts_of(before.push(n@)),
{
    let ghost was = sizes(*verdicts);
    let ghost node = n@;
    let ghost after = before.push(node);
    proof {
        assert forall|v: Seq<char>| verdict_of(node) != Some(v) implies how_many(
            after,
            #[trigger] with_verdict(v),
        ) == how_many(before, with_verdict(v)) by {
            lemma_how_many_push(before, node, with_verdict(v));
        }
    }
    match &n.last_probe {
        Some(p) => match &p.verdict {
            Some(v) => {
                let ghost t = v@;
                proof {
                    lemma_how_many_push(before, node, with_verdict(t));
                    lemma_how_many_bound(before, with_verdict(t));
                    assert(with_verdict(t)(node));
                }
                let so_far: usize = match verdicts.get(v.as_str()) {
                    Some(c) => {
                        assert(was.contains_key(t) && was[t] == *c);
                        *c
                    },
                    None => {
                        assert(!was.contains_key(t));
                        0
                    },
                };
                verdicts.insert(v.clone(), so_far + 1);
                proof {
                    assert(sizes(*verdicts) =~= was.insert(t, (so_far + 1) as nat));
                    assert(sizes(*verdicts) =~= verdicts_of(after));
                }
            },
            None => {
                assert(verdicts_of(after) =~= was);
            },
        },
        None => {
            assert(verdicts_of(after) =~= was);
        },
    }
}

/// The vendors after the nodes in `before` and the first `i` vendors of one
/// more node.
spec fn vendors_with(before: Seq<NodeModel>, s: Seq<(String, u64)>, i: int) -> Map<Seq<char>, nat> {
    Map::new(
        |v: Seq<char>| how_many(before, with_vendor(v)) > 0 || place_of(s, i, v) < i,
        |v: Seq<char>|
            (vendor_sum(before, v) + if place_of(s, i, v) < i {
                s[place_of(s, i, v)].1 as nat
            } else {
                0
            }) % 0x1_0000_0000_0000_0000,
    )
}

/// Where the vendor stands among the first `i`; `i` if it does not.
spec fn place_of(s: Seq<(String, u64)>, i: int, v: Seq<char>) -> int
    decreases i,
{
    if i <= 0 {
        i
    } else if s[i - 1].0@ == v {
        i - 1
    } else if place_of(s, i - 1, v) < i - 1 {
        place_of(s, i - 1, v)
    } else {
        i
    }
}

proof fn lemma_place(s: Seq<(String, u64)>, i: int, v: Seq<char>)
    requires
        0 <= i <= s.len(),
    ensures
        0 <= place_of(s, i, v) <= i,
        place_of(s, i, v) < i ==> s[place_of(s, i, v)].0@ == v,
        place_of(s, i, v) == i ==> forall|j: int| 0 <= j < i ==> (#[trigger] s[j]).0@ != v,
    decreases i,
{
    if i > 0 {
        lemma_place(s, i - 1, v);
    }
}

/// Adds the vendors of a node. `before` is what was added before.
fn note_vendors(totals: &mut TextMap<u64>, n: &NodeView, Ghost(before): Ghost<Seq<NodeModel>>)
    requires
        counts(*old(totals)) == vendors_of(before),
    ensures
        counts(*final(totals)) == vendors_of(before.push(n@)),
{
    let entries = n.vendor_counts.entries();
    let ghost s = entries@;
    let mut i: usize = 0;
    assert(counts(*totals) =~= vendors_with(before, s, 0));
    while i < entries.len()
        invariant
            i <= entries@.len(),
            s == entries@,
            textmap::increasing(s),
            counts(*totals) == vendors_with(before, s, i as int),
        decreases entries@.len() - i,
    {
        let ghost was = counts(*totals);
        let ghost v = s[i as int].0@;
        let so_far: u64 = match totals.get(entries[i].0.as_str()) {
            Some(c) => {
                assert(was.contains_key(v) && was[v] == *c);
                *c
            },
            None => {
                assert(!was.contains_key(v));
                0
            },
        };
        let sum: u64 = so_far.wrapping_add(entries[i].1);
        totals.insert(entries[i].0.clone(), sum);
        proof {
            let c = s[i as int].1 as nat;
            let m: nat = 0x1_0000_0000_0000_0000;
            lemma_place(s, i as int, v);
            if place_of(s, i as int, v) < i {
                textmap::lemma_key_once(s, place_of(s, i as int, v), i as int);
            }
            if how_many(before, with_vendor(v)) == 0 {
                lemma_no_vendor(before, v);
            }
            let old_sum = vendor_sum(before, v);
            assert(so_far == old_sum % m);
            assert((old_sum % m + c) % m == (old_sum + c) % m) by (nonlinear_arith)
                requires
                    m == 0x1_0000_0000_0000_0000nat,
            ;
            assert(sum == (so_far + c) % (m as int));
            assert(counts(*totals) =~= was.insert(v, sum as nat));
            assert forall|w: Seq<char>| w != v implies (place_of(s, i + 1, w) < i + 1) == (place_of(
                s,
                i as int,
                w,
            ) < i) && (place_of(s, i as int, w) < i ==> #[trigger] place_of(s, i + 1, w) == place_of(
                s,
                i as int,
                w,
            )) by {
            }
            assert(place_of(s, i + 1, v) == i);
            assert(counts(*totals) =~= vendors_with(before, s, i + 1));
        }
        i = i + 1;
    }
    proof {
        let node = n@;
        let after = before.push(node);
        let all = s.len() as int;
        assert(after.drop_last() =~= before);
        assert forall|v: Seq<char>| (place_of(s, all, v) < all) == #[trigger] node.vendor_counts.contains_key(v)
            && (place_of(s, all, v) < all ==> node.vendor_counts[v] == s[place_of(s, all, v)].1) by {
            lemma_place(s, all, v);
            if place_of(s, all, v) < all {
                textmap::lemma_map_at(s, place_of(s, all, v));
            }
            if node.vendor_counts.contains_key(v) {
                let j = choose|j: int| textmap::key_at(s, v, j);
                assert(s[j].0@ == v);
            }
        }
        assert forall|v: Seq<char>| vendors_of(after).contains_key(v) == vendors_with(
            before,
            s,
            all,
        ).contains_key(v) by {
            lemma_how_many_push(before, node, with_vendor(v));
            assert(with_vendor(v)(node) == node.vendor_counts.contains_key(v));
        }
        assert forall|v: Seq<char>| vendors_of(after).contains_key(v) implies vendors_of(after)[v]
            == vendors_with(before, s, all)[v] by {
            assert(with_vendor(v)(node) == node.vendor_counts.contains_key(v));
        }
        assert(vendors_of(after) =~= vendors_with(before, s, all));
    }
}

/// The cluster at a glance: what its nodes come to.
pub fn summarize(nodes: &[NodeView]) -> (r: ClusterSummary)
    ensures
        r@ == summary_of(node_models(nodes@)),
{
    let ghost all = node_models(nodes@);
    let total: usize = nodes.len();
    let mut ready: usize = 0;
    let mut racks: TextMap<RackSummary> = TextMap::new();
    let mut verdicts: TextMap<usize> = TextMap::new();
    let mut totals: TextMap<u64> = TextMap::new();
    let mut i: usize = 0;
    proof {
        assert(all.take(0) =~= Seq::empty());
        assert(rack_models(racks) =~= racks_of(all.take(0)));
        assert(sizes(verdicts) =~= verdicts_of(all.take(0)));
        assert(counts(totals) =~= vendors_of(all.take(0)));
    }
    while i < total
        invariant
            i <= nodes@.len(),
            all == node_models(nodes@),
            total == nodes@.len(),
            ready == how_many(all.take(i as int), readiness()),
            rack_models(racks) == racks_of(all.take(i as int)),
            sizes(verdicts) == verdicts_of(all.take(i as int)),
            counts(totals) == vendors_of(all.take(i as int)),
        decreases nodes@.len() - i,
    {
        let ghost before = all.take(i as int);
        let n = &nodes[i];
        proof {
            assert(all[i as int] == n@);
            assert(all.take(i + 1) =~= before.push(n@));
            lemma_how_many_push(before, n@, readiness());
            lemma_how_many_bound(before, readiness());
        }
        if n.ready {
            ready = ready + 1;
        }
        note_rack(&mut racks, n, Ghost(before));
        note_verdict(&mut verdicts, n, Ghost(before));
        note_vendors(&mut totals, n, Ghost(before));
        i = i + 1;
    }
    assert(all.take(all.len() as int) =~= all);
    ClusterSummary {
        nodes_total: total,
        nodes_ready: ready,
        racks,
        probe_verdicts: verdicts,
        vendor_totals: totals,
    }
}

/// A rack has no more probes, good and bad, than it has nodes.
pub proof fn law_rack_probes_fit_nodes(nodes: Seq<NodeModel>, rack: Seq<char>)
    ensures
        how_many(nodes, healthy_in_rack(rack)) + how_many(nodes, failed_in_rack(rack)) <= names_in(
            nodes,
            rack,
        ).len(),
        names_in(nodes, rack).len() == how_many(nodes, in_rack(rack)),
    decreases nodes.len(),
{
    if nodes.len() > 0 {
        law_rack_probes_fit_nodes(nodes.drop_last(), rack);
    }
}

// ---------------------------------------------------------------------
// What the daemon writes, the console reads
// ---------------------------------------------------------------------

/// The labels that the daemon gives a node.
pub open spec fn published(
    t: NodeTopology,
    accels: Seq<Accelerator>,
    devices: Seq<RdmaDevice>,
    r: NodeReadiness,
) -> Map<Seq<char>, Seq<char>> {
    preflight::ready_labels(labels::rdma_labels(labels::labels_of(t, accels), devices), r)
}

/// Labels that count the vendor's accelerators are read as they were
/// written.
proof fn lemma_vendor_label(
    t: NodeTopology,
    accels: Seq<Accelerator>,
    devices: Seq<RdmaDevice>,
    r: NodeReadiness,
    k: Seq<char>,
)
    ensures
        ({
            let key = "accel.lunnova.dev/vendor."@ + k + ".count"@;
            let c = labels::tally(labels::vendors(accels));
            &&& published(t, accels, devices, r).contains_key(key) == c.contains_key(k)
            &&& c.contains_key(k) ==> published(t, accels, devices, r)[key] == number::decimal(c[k])
        }),
{
    reveal_strlit("accel.lunnova.dev/vendor.");
    reveal_strlit(".count");
    reveal_strlit(".physical-count");
    reveal_strlit("accel.lunnova.dev/model.");
    reveal_strlit("accel.lunnova.dev/memory-kind.");
    reveal_strlit("accel.lunnova.dev/total-count");
    reveal_strlit("accel-topo.lunnova.dev/block");
    reveal_strlit("accel-topo.lunnova.dev/rack");
    reveal_strlit("accel-topo.lunnova.dev/fabric-domain.");
    reveal_strlit("accel-topo.lunnova.dev/fabric-domains-count");
    reveal_strlit("accel-net.lunnova.dev/rdma");
    reveal_strlit("accel-ready.lunnova.dev/inference");
    reveal_strlit("accel-ready.lunnova.dev/training");
    let prefix = "accel.lunnova.dev/vendor."@;
    let key = prefix + k + ".count"@;
    assert(key[5] == prefix[5] && key[18] == prefix[18]);
    assert(key != "accel.lunnova.dev/total-count"@) by {
        assert(key[18] != "accel.lunnova.dev/total-count"@[18]);
    }
    assert(key != "accel-ready.lunnova.dev/inference"@) by {
        assert(key[5] != "accel-net.lunnova.dev/rdma"@[5]);
        assert(key[5] != "accel-ready.lunnova.dev/inference"@[5]);
    }
    assert(key != "accel-ready.lunnova.dev/training"@) by {
        assert(key[5] != "accel-ready.lunnova.dev/training"@[5]);
    }
    assert(key != "accel-topo.lunnova.dev/block"@) by {
        assert(key[5] != "accel-topo.lunnova.dev/block"@[5]);
    }
    assert(key != "accel-topo.lunnova.dev/rack"@) by {
        assert(key[5] != "accel-topo.lunnova.dev/rack"@[5]);
    }
    assert(key != "accel-topo.lunnova.dev/fabric-domains-count"@) by {
        assert(key[5] != "accel-topo.lunnova.dev/fabric-domains-count"@[5]);
    }
    labels::lemma_not_count_label(
        "accel-topo.lunnova.dev/fabric-domain."@,
        ""@,
        labels::tally(labels::domain_sizes(t.fabric_domains@)),
        key,
        5,
    );
    labels::lemma_not_count_label(
        "accel.lunnova.dev/model."@,
        ".count"@,
        labels::tally(labels::model_slugs(accels)),
        key,
        18,
    );
    labels::lemma_not_count_label(
        "accel.lunnova.dev/memory-kind."@,
        ".count"@,
        labels::tally(labels::memory_kinds(accels)),
        key,
        18,
    );
    let physical = labels::count_labels(prefix, ".physical-count"@, labels::physical_counts(accels));
    assert(!physical.contains_key(key)) by {
        if physical.contains_key(key) {
            let m = choose|m: Seq<char>|
                labels::physical_counts(accels).contains_key(m) && key == #[trigger] (prefix + m
                    + ".physical-count"@);
            let other = prefix + m + ".physical-count"@;
            assert(key[key.len() - 6] == ".count"@[0]);
            assert(other[other.len() - 6] == ".physical-count"@[9]);
        }
    }
    labels::lemma_count_label(prefix, ".count"@, labels::tally(labels::vendors(accels)), k);
}

/// Labels that count the accelerators of a model are read as they were
/// written.
proof fn lemma_model_label(
    t: NodeTopology,
    accels: Seq<Accelerator>,
    devices: Seq<RdmaDevice>,
    r: NodeReadiness,
    k: Seq<char>,
)
    ensures
        ({
            let key = "accel.lunnova.dev/model."@ + k + ".count"@;
            let c = labels::tally(labels::model_slugs(accels));
            &&& published(t, accels, devices, r).contains_key(key) == c.contains_key(k)
            &&& c.contains_key(k) ==> published(t, accels, devices, r)[key] == number::decimal(c[k])
        }),
{
    reveal_strlit("accel.lunnova.dev/vendor.");
    reveal_strlit("accel.lunnova.dev/model.");
    reveal_strlit("accel.lunnova.dev/memory-kind.");
    reveal_strlit("accel.lunnova.dev/total-count");
    reveal_strlit("accel-topo.lunnova.dev/block");
    reveal_strlit("accel-topo.lunnova.dev/rack");
    reveal_strlit("accel-topo.lunnova.dev/fabric-domain.");
    reveal_strlit("accel-topo.lunnova.dev/fabric-domains-count");
    reveal_strlit("accel-net.lunnova.dev/rdma");
    reveal_strlit("accel-ready.lunnova.dev/inference");
    reveal_strlit("accel-ready.lunnova.dev/training");
    let prefix = "accel.lunnova.dev/model."@;
    let key = prefix + k + ".count"@;
    assert(key[5] == prefix[5] && key[18] == prefix[18] && key[19] == prefix[19]);
    assert(key != "accel.lunnova.dev/total-count"@) by {
        assert(key[18] != "accel.lunnova.dev/total-count"@[18]);
    }
    assert(key != "accel-ready.lunnova.dev/inference"@) by {
        assert(key[5] != "accel-net.lunnova.dev/rdma"@[5]);
        assert(key[5] != "accel-ready.lunnova.dev/inference"@[5]);
    }
    assert(key != "accel-ready.lunnova.dev/training"@) by {
        assert(key[5] != "accel-ready.lunnova.dev/training"@[5]);
    }
    assert(key != "accel-topo.lunnova.dev/block"@) by {
        assert(key[5] != "accel-topo.lunnova.dev/block"@[5]);
    }
    assert(key != "accel-topo.lunnova.dev/rack"@) by {
        assert(key[5] != "accel-topo.lunnova.dev/rack"@[5]);
    }
    assert(key != "accel-topo.lunnova.dev/fabric-domains-count"@) by {
        assert(key[5] != "accel-topo.lunnova.dev/fabric-domains-count"@[5]);
    }
    labels::lemma_not_count_label(
        "accel-topo.lunnova.dev/fabric-domain."@,
        ""@,
        labels::tally(labels::domain_sizes(t.fabric_domains@)),
        key,
        5,
    );
    labels::lemma_not_count_label(
        "accel.lunnova.dev/vendor."@,
        ".count"@,
        labels::tally(labels::vendors(accels)),
        key,
        18,
    );
    labels::lemma_not_count_label(
        "accel.lunnova.dev/vendor."@,
        ".physical-count"@,
        labels::physical_counts(accels),
        key,
        18,
    );
    labels::lemma_not_count_label(
        "accel.lunnova.dev/memory-kind."@,
        ".count"@,
        labels::tally(labels::memory_kinds(accels)),
        key,
        19,
    );
    labels::lemma_count_label(prefix, ".count"@, labels::tally(labels::model_slugs(accels)), k);
}

/// The console counts the accelerators of a node as the daemon did: by
/// vendor, by model, and all together.
pub proof fn law_counts_are_read_back(
    t: NodeTopology,
    accels: Seq<Accelerator>,
    devices: Seq<RdmaDevice>,
    r: NodeReadiness,
)
    requires
        accels.len() <= u64::MAX,
    ensures
        counts_in(published(t, accels, devices, r), "accel.lunnova.dev/vendor."@, ".count"@) == labels::tally(
            labels::vendors(accels),
        ),
        counts_in(published(t, accels, devices, r), "accel.lunnova.dev/model."@, ".count"@) == labels::tally(
            labels::model_slugs(accels),
        ),
        published(t, accels, devices, r).contains_key("accel.lunnova.dev/total-count"@),
        u64_of(published(t, accels, devices, r)["accel.lunnova.dev/total-count"@]) == Some(accels.len()),
{
    let all = published(t, accels, devices, r);
    let max = u64::MAX as nat;
    let (p, q) = ("accel.lunnova.dev/vendor."@, ".count"@);
    let c = labels::tally(labels::vendors(accels));
    let by_vendor = counts_in(all, p, q);
    assert forall|k: Seq<char>| by_vendor.contains_key(k) == c.contains_key(k) by {
        lemma_vendor_label(t, accels, devices, r, k);
        if c.contains_key(k) {
            labels::lemma_tally_bound(labels::vendors(accels), k);
            number::law_decimal_reads_back(c[k], max);
        }
    }
    assert forall|k: Seq<char>| c.contains_key(k) implies by_vendor[k] == c[k] by {
        lemma_vendor_label(t, accels, devices, r, k);
        labels::lemma_tally_bound(labels::vendors(accels), k);
        number::law_decimal_reads_back(c[k], max);
    }
    assert(by_vendor =~= c);
    let m = "accel.lunnova.dev/model."@;
    let d = labels::tally(labels::model_slugs(accels));
    let by_model = counts_in(all, m, q);
    assert forall|k: Seq<char>| by_model.contains_key(k) == d.contains_key(k) by {
        lemma_model_label(t, accels, devices, r, k);
        if d.contains_key(k) {
            labels::lemma_tally_bound(labels::model_slugs(accels), k);
            number::law_decimal_reads_back(d[k], max);
        }
    }
    assert forall|k: Seq<char>| d.contains_key(k) implies by_model[k] == d[k] by {
        lemma_model_label(t, accels, devices, r, k);
        labels::lemma_tally_bound(labels::model_slugs(accels), k);
        number::law_decimal_reads_back(d[k], max);
    }
    assert(by_model =~= d);
    reveal_strlit("accel.lunnova.dev/total-count");
    reveal_strlit("accel-net.lunnova.dev/rdma");
    reveal_strlit("accel-ready.lunnova.dev/inference");
    reveal_strlit("accel-ready.lunnova.dev/training");
    assert("accel.lunnova.dev/total-count"@[5] != "accel-net.lunnova.dev/rdma"@[5]);
    assert("accel.lunnova.dev/total-count"@[5] != "accel-ready.lunnova.dev/inference"@[5]);
    assert("accel.lunnova.dev/total-count"@[5] != "accel-ready.lunnova.dev/training"@[5]);
    number::law_decimal_reads_back(accels.len(), max);
}

/// The console shows a node in the rack and the block that the daemon was
/// told, with as many fabric domains as the daemon found.
pub proof fn law_place_is_read_back(
    t: NodeTopology,
    accels: Seq<Accelerator>,
    devices: Seq<RdmaDevice>,
    r: NodeReadiness,
)
    requires
        t.fabric_domains@.len() <= u64::MAX,
    ensures
        ({
            let all = published(t, accels, devices, r);
            let rack = "accel-topo.lunnova.dev/rack"@;
            let block = "accel-topo.lunnova.dev/block"@;
            let domains = "accel-topo.lunnova.dev/fabric-domains-count"@;
            &&& all.contains_key(rack) == t.rack is Some
            &&& t.rack is Some ==> all[rack] == t.rack->0@
            &&& all.contains_key(block) == t.block is Some
            &&& t.block is Some ==> all[block] == t.block->0@
            &&& all.contains_key(domains)
            &&& u64_of(all[domains]) == Some(t.fabric_domains@.len())
        }),
{
    reveal_strlit("accel-topo.lunnova.dev/rack");
    reveal_strlit("accel-topo.lunnova.dev/block");
    reveal_strlit("accel-topo.lunnova.dev/fabric-domain.");
    reveal_strlit("accel-topo.lunnova.dev/fabric-domains-count");
    number::law_decimal_reads_back(t.fabric_domains@.len(), u64::MAX as nat);
    lemma_place_label(t, accels, devices, r, "accel-topo.lunnova.dev/rack"@);
    lemma_place_label(t, accels, devices, r, "accel-topo.lunnova.dev/block"@);
    lemma_place_label(t, accels, devices, r, "accel-topo.lunnova.dev/fabric-domains-count"@);
    assert("accel-topo.lunnova.dev/rack"@[23] != "accel-topo.lunnova.dev/block"@[23]);
    assert("accel-topo.lunnova.dev/rack"@[23] != "accel-topo.lunnova.dev/fabric-domains-count"@[23]);
    assert("accel-topo.lunnova.dev/block"@[23] != "accel-topo.lunnova.dev/fabric-domains-count"@[23]);
    let sizes = labels::tally(labels::domain_sizes(t.fabric_domains@));
    let prefix = "accel-topo.lunnova.dev/fabric-domain."@;
    labels::lemma_not_count_label(prefix, ""@, sizes, "accel-topo.lunnova.dev/rack"@, 23);
    labels::lemma_not_count_label(prefix, ""@, sizes, "accel-topo.lunnova.dev/block"@, 23);
}

/// What is said of a place is not touched by what is said of accelerators
/// and of readiness.
proof fn lemma_place_label(
    t: NodeTopology,
    accels: Seq<Accelerator>,
    devices: Seq<RdmaDevice>,
    r: NodeReadiness,
    key: Seq<char>,
)
    requires
        key.len() > 6,
        key[5] == '-',
        key[6] == 't',
    ensures
        ({
            let place = labels::with_opt(
                labels::with_opt(Map::empty(), "accel-topo.lunnova.dev/block"@, text::opt_text(t.block)),
                "accel-topo.lunnova.dev/rack"@,
                text::opt_text(t.rack),
            ).union_prefer_right(
                labels::count_labels(
                    "accel-topo.lunnova.dev/fabric-domain."@,
                    ""@,
                    labels::tally(labels::domain_sizes(t.fabric_domains@)),
                ),
            ).insert(
                "accel-topo.lunnova.dev/fabric-domains-count"@,
                number::decimal(t.fabric_domains@.len()),
            );
            &&& published(t, accels, devices, r).contains_key(key) == place.contains_key(key)
            &&& place.contains_key(key) ==> published(t, accels, devices, r)[key] == place[key]
        }),
{
    reveal_strlit("accel.lunnova.dev/vendor.");
    reveal_strlit("accel.lunnova.dev/model.");
    reveal_strlit("accel.lunnova.dev/memory-kind.");
    reveal_strlit("accel.lunnova.dev/total-count");
    reveal_strlit("accel-net.lunnova.dev/rdma");
    reveal_strlit("accel-ready.lunnova.dev/inference");
    reveal_strlit("accel-ready.lunnova.dev/training");
    assert("accel.lunnova.dev/total-count"@[5] != key[5]);
    assert("accel-net.lunnova.dev/rdma"@[6] != key[6]);
    assert("accel-ready.lunnova.dev/inference"@[6] != key[6]);
    assert("accel-ready.lunnova.dev/training"@[6] != key[6]);
    labels::lemma_not_count_label(
        "accel.lunnova.dev/vendor."@,
        ".count"@,
        labels::tally(labels::vendors(accels)),
        key,
        5,
    );
    labels::lemma_not_count_label(
        "accel.lunnova.dev/vendor."@,
        ".physical-count"@,
        labels::physical_counts(accels),
        key,
        5,
    );
    labels::lemma_not_count_label(
        "accel.lunnova.dev/model."@,
        ".count"@,
        labels::tally(labels::model_slugs(accels)),
        key,
        5,
    );
    labels::lemma_not_count_label(
        "accel.lunnova.dev/memory-kind."@,
        ".count"@,
        labels::tally(labels::memory_kinds(accels)),
        key,
        5,
    );
}

/// The bandwidth that a probe with the given verdict measured.
pub open spec fn measured_bandwidth(verdict: VerdictModel) -> Option<Seq<char>> {
    match verdict {
        VerdictModel::Passed(f) => f.bw_avg,
        _ => None,
    }
}

/// The bandwidth that annotations carry under the long name.
pub open spec fn long_bandwidth(annotations: Map<Seq<char>, Seq<char>>) -> Option<Seq<char>> {
    let key = "accel-test.lunnova.dev/last-rack-bandwidth-gbps"@;
    if annotations.contains_key(key) && number::is_float_literal(annotations[key]) {
        Some(annotations[key])
    } else {
        None
    }
}

/// The console shows the probe between nodes that the prober told the node
/// of: its time, its partner, its verdict, and the bandwidth that it
/// measured, or none after a probe that did not pass. A bandwidth that the
/// node carries under the long name, which the prober does not write, is
/// shown in its place.
pub proof fn law_probe_is_read_back(
    n: NodeObject,
    current: Map<Seq<char>, Seq<char>>,
    partner: Seq<char>,
    now: Seq<char>,
    verdict: VerdictModel,
)
    requires
        label_map(n.annotations) == labeler::patched(
            current,
            annotations::body_of(Family::Rack, Some(partner), now, verdict),
        ),
    ensures
        view_of(n).last_probe is Some,
        view_of(n).last_probe->0.at == Some(now),
        view_of(n).last_probe->0.partner == Some(partner),
        view_of(n).last_probe->0.verdict == Some(annotations::label_of(verdict)),
        match (long_bandwidth(current), measured_bandwidth(verdict)) {
            (Some(b), _) => view_of(n).last_probe->0.bandwidth_gbps == Some(b),
            (None, Some(b)) => number::is_float_literal(b) ==> view_of(n).last_probe->0.bandwidth_gbps == Some(
                b,
            ),
            (None, None) => !(verdict is Passed) ==> view_of(n).last_probe->0.bandwidth_gbps is None,
        },
{
    annotations::law_told_node_carries_verdict(current, Family::Rack, Some(partner), now, verdict);
    let after = label_map(n.annotations);
    assert(after.contains_key("accel-test.lunnova.dev/last-rack-at"@));
    assert(after.contains_key("accel-test.lunnova.dev/last-rack-partner"@));
    assert(after.contains_key("accel-test.lunnova.dev/last-rack-verdict"@));
    let long = "accel-test.lunnova.dev/last-rack-bandwidth-gbps"@;
    annotations::lemma_long_name();
    annotations::lemma_other_key(Family::Rack, Some(partner), now, verdict, long);
    assert(after.contains_key(long) == current.contains_key(long));
    assert(current.contains_key(long) ==> after[long] == current[long]);
    assert(figure_in(n.annotations, long) == long_bandwidth(current));
    let short = "accel-test.lunnova.dev/last-rack-bw-gbps"@;
    assert(after.contains_key(short) ==> node::lookup(n.annotations, short) == Some(after[short]));
}

/// The console shows the probe of a node by itself that the prober told the
/// node of, where no probe with another node is told: its time, its verdict,
/// and the bandwidth that it measured, with no partner.
pub proof fn law_loopback_is_read_back(
    n: NodeObject,
    current: Map<Seq<char>, Seq<char>>,
    now: Seq<char>,
    verdict: VerdictModel,
)
    requires
        label_map(n.annotations) == labeler::patched(
            current,
            annotations::body_of(Family::Loopback, None, now, verdict),
        ),
        pair_probe_in(n.annotations) is None,
    ensures
        view_of(n).last_probe is Some,
        view_of(n).last_probe->0.at == Some(now),
        view_of(n).last_probe->0.partner is None,
        view_of(n).last_probe->0.verdict == Some(annotations::label_of(verdict)),
        match measured_bandwidth(verdict) {
            Some(b) => number::is_float_literal(b) ==> view_of(n).last_probe->0.bandwidth_gbps == Some(b),
            None => !(verdict is Passed) ==> view_of(n).last_probe->0.bandwidth_gbps is None,
        },
{
    annotations::law_told_node_carries_verdict(current, Family::Loopback, None, now, verdict);
    let after = label_map(n.annotations);
    assert(after.contains_key("accel-test.lunnova.dev/last-loopback-at"@));
    assert(after.contains_key("accel-test.lunnova.dev/last-loopback-verdict"@));
}

} // verus!
