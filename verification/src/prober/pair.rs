//! Which nodes to probe next. Within a rack the two nodes whose last probe
//! is longest ago make the pair; a node that was never probed counts as the
//! oldest, and names break ties. Probing per node and not per pair keeps one
//! time per node, and the most stale node is always drawn in.

use super::annotations;
use crate::k8s::labeler;
use crate::k8s::node;
use crate::k8s::node::NodeObject;
use crate::preflight::NodeReadiness;
use crate::sensors::Accelerator;
use crate::sorting;
use crate::telemetry::preflight;
use crate::text;
use crate::textmap;
use crate::textmap::TextMap;
use crate::topology::labels;
use crate::topology::rdma;
use crate::topology::rdma::RdmaDevice;
use crate::topology::NodeTopology;
use vstd::prelude::*;

verus! {

/// A node that can be probed.
#[derive(Debug)]
pub struct NodeView {
    pub name: String,
    /// The time of its last probe with another node.
    pub last_at: Option<String>,
    pub rack: String,
}

/// The model of a node that can be probed.
#[verifier::ext_equal]
pub struct NodeModel {
    pub name: Seq<char>,
    pub last_at: Option<Seq<char>>,
    pub rack: Seq<char>,
}

impl View for NodeView {
    type V = NodeModel;

    open spec fn view(&self) -> NodeModel {
        NodeModel { name: self.name@, last_at: text::opt_text(self.last_at), rack: self.rack@ }
    }
}

impl Clone for NodeView {
    fn clone(&self) -> (r: Self)
        ensures
            r == *self,
    {
        NodeView {
            name: self.name.clone(),
            last_at: text::clone_opt(&self.last_at),
            rack: self.rack.clone(),
        }
    }
}

/// The models of nodes.
pub open spec fn node_models(v: Seq<NodeView>) -> Seq<NodeModel> {
    v.map_values(|n: NodeView| n@)
}

// ---------------------------------------------------------------------
// Eligible nodes
// ---------------------------------------------------------------------

/// What the prober sees of a node: it needs a name, a rack, and RDMA.
pub open spec fn view_of(n: NodeObject) -> Option<NodeModel> {
    match (n.name, node::lookup(n.labels, "accel-topo.lunnova.dev/rack"@)) {
        (Some(name), Some(rack)) => if node::lookup(n.labels, "accel-net.lunnova.dev/rdma"@) == Some("present"@) {
            Some(
                NodeModel {
                    name: name@,
                    last_at: node::lookup(n.annotations, "accel-test.lunnova.dev/last-rack-at"@),
                    rack,
                },
            )
        } else {
            None
        },
        _ => None,
    }
}

/// The nodes that can be probed: ready ones that the prober sees.
pub open spec fn eligible_of(nodes: Seq<NodeObject>) -> Seq<NodeModel>
    decreases nodes.len(),
{
    if nodes.len() == 0 {
        Seq::empty()
    } else {
        let head = eligible_of(nodes.drop_last());
        let n = nodes.last();
        match view_of(n) {
            Some(v) => if node::node_ready(n) {
                head.push(v)
            } else {
                head
            },
            None => head,
        }
    }
}

impl NodeView {
    /// What the prober sees of a node.
    pub fn from_node(n: &NodeObject) -> (r: Option<Self>)
        ensures
            match r {
                Some(v) => view_of(*n) == Some(v@),
                None => view_of(*n) is None,
            },
    {
        let name = match &n.name {
            Some(s) => s.clone(),
            None => {
                return None;
            },
        };
        let rack = match node::value_of(&n.labels, "accel-topo.lunnova.dev/rack") {
            Some(s) => s,
            None => {
                return None;
            },
        };
        match node::value_of(&n.labels, "accel-net.lunnova.dev/rdma") {
            Some(s) => {
                if !text::same(s.as_str(), "present") {
                    return None;
                }
            },
            None => {
                return None;
            },
        }
        let last_at = node::value_of(&n.annotations, "accel-test.lunnova.dev/last-rack-at");
        Some(NodeView { name, last_at, rack })
    }
}

/// The nodes that can be probed.
pub fn eligible(nodes: &Vec<NodeObject>) -> (r: Vec<NodeView>)
    ensures
        node_models(r@) == eligible_of(nodes@),
{
    let mut out: Vec<NodeView> = Vec::new();
    assert(node_models(out@) =~= Seq::empty());
    let mut i: usize = 0;
    while i < nodes.len()
        invariant
            i <= nodes@.len(),
            node_models(out@) == eligible_of(nodes@.take(i as int)),
        decreases nodes@.len() - i,
    {
        proof {
            let t = nodes@.take(i + 1);
            assert(t.drop_last() =~= nodes@.take(i as int));
            assert(t.last() == nodes@[i as int]);
        }
        if node::is_ready(&nodes[i]) {
            match NodeView::from_node(&nodes[i]) {
                Some(v) => {
                    let ghost before = node_models(out@);
                    let ghost m = v@;
                    out.push(v);
                    assert(node_models(out@) =~= before.push(m));
                },
                None => {},
            }
        }
        i = i + 1;
    }
    assert(nodes@.take(nodes@.len() as int) =~= nodes@);
    out
}

// ---------------------------------------------------------------------
// Racks
// ---------------------------------------------------------------------

/// The nodes of a rack.
pub open spec fn rack_members(nodes: Seq<NodeModel>, rack: Seq<char>) -> Seq<NodeModel> {
    nodes.filter(|n: NodeModel| n.rack == rack)
}

/// Nodes by name.
pub open spec fn name_before() -> spec_fn(NodeModel, NodeModel) -> bool {
    |a: NodeModel, b: NodeModel| text::text_lt(a.name, b.name)
}

/// A node of the rack is among the nodes.
pub open spec fn has_rack(nodes: Seq<NodeModel>, rack: Seq<char>) -> bool {
    exists|i: int| 0 <= i < nodes.len() && (#[trigger] nodes[i]).rack == rack
}

/// The racks, each with its nodes by name.
pub open spec fn racks_of(nodes: Seq<NodeModel>) -> Map<Seq<char>, Seq<NodeModel>> {
    Map::new(
        |rack: Seq<char>| has_rack(nodes, rack),
        |rack: Seq<char>| sorting::arranged(rack_members(nodes, rack), name_before()),
    )
}

/// The racks, each with its nodes as they come.
spec fn plain_racks(nodes: Seq<NodeModel>) -> Map<Seq<char>, Seq<NodeModel>> {
    Map::new(
        |rack: Seq<char>| has_rack(nodes, rack),
        |rack: Seq<char>| rack_members(nodes, rack),
    )
}

/// The models of groups of nodes.
pub open spec fn group_models(m: TextMap<Vec<NodeView>>) -> Map<Seq<char>, Seq<NodeModel>> {
    m@.map_values(|v: Vec<NodeView>| node_models(v@))
}

proof fn lemma_one_more_node(nodes: Seq<NodeModel>, n: NodeModel)
    ensures
        plain_racks(nodes.push(n)) == plain_racks(nodes).insert(n.rack, rack_members(nodes, n.rack).push(n)),
{
    let t = nodes.push(n);
    let a = plain_racks(t);
    let b = plain_racks(nodes).insert(n.rack, rack_members(nodes, n.rack).push(n));
    assert forall|rack: Seq<char>| #[trigger] has_rack(t, rack) == (has_rack(nodes, rack) || rack == n.rack) by {
        if has_rack(t, rack) {
            let i = choose|i: int| 0 <= i < t.len() && (#[trigger] t[i]).rack == rack;
            if i < nodes.len() {
                assert(nodes[i].rack == rack);
            }
        }
        if has_rack(nodes, rack) {
            let i = choose|i: int| 0 <= i < nodes.len() && (#[trigger] nodes[i]).rack == rack;
            assert(t[i].rack == rack);
        }
        assert(t[nodes.len() as int] == n);
    }
    assert forall|rack: Seq<char>| a.contains_key(rack) implies a[rack] == b[rack] by {
        sorting::lemma_filter_push(nodes, n, |m: NodeModel| m.rack == rack);
    }
    assert(a =~= b);
}

proof fn lemma_no_members(nodes: Seq<NodeModel>, rack: Seq<char>)
    requires
        !has_rack(nodes, rack),
    ensures
        rack_members(nodes, rack) == Seq::<NodeModel>::empty(),
    decreases nodes.len(),
{
    reveal(Seq::filter);
    if nodes.len() > 0 {
        let d = nodes.drop_last();
        assert(nodes[nodes.len() - 1].rack != rack);
        assert(!has_rack(d, rack)) by {
            if has_rack(d, rack) {
                let i = choose|i: int| 0 <= i < d.len() && (#[trigger] d[i]).rack == rack;
                assert(nodes[i].rack == rack);
            }
        }
        lemma_no_members(d, rack);
    }
}

fn name_less(a: &NodeView, b: &NodeView) -> (r: bool)
    ensures
        r == text::text_lt(a.name@, b.name@),
{
    text::less(a.name.as_str(), b.name.as_str())
}

fn sort_by_name(v: Vec<NodeView>) -> (r: Vec<NodeView>)
    ensures
        node_models(r@) == sorting::arranged(node_models(v@), name_before()),
{
    let ghost before = |a: NodeView, b: NodeView| text::text_lt(a.name@, b.name@);
    proof {
        sorting::lemma_arranged_map(v@, |n: NodeView| n@, before, name_before());
    }
    sorting::arrange(v, name_less, Ghost(before))
}

fn gather(nodes: Vec<NodeView>) -> (r: TextMap<Vec<NodeView>>)
    ensures
        group_models(r) == plain_racks(node_models(nodes@)),
{
    let ghost all = node_models(nodes@);
    let mut rest = nodes;
    let mut out: TextMap<Vec<NodeView>> = TextMap::new();
    let ghost mut done: int = 0;
    proof {
        assert(nodes@.skip(0) =~= nodes@);
        assert(group_models(out) =~= plain_racks(all.take(0)));
    }
    while rest.len() > 0
        invariant
            all == node_models(nodes@),
            0 <= done <= nodes@.len(),
            rest@ == nodes@.skip(done),
            group_models(out) == plain_racks(all.take(done)),
        decreases rest@.len(),
    {
        let n = rest.remove(0);
        let ghost before = out@;
        let ghost groups = group_models(out);
        let ghost m = n@;
        let rack = n.rack.clone();
        let mut members: Vec<NodeView> = match out.remove(rack.as_str()) {
            Some(v) => v,
            None => Vec::new(),
        };
        proof {
            let head = all.take(done);
            if before.contains_key(m.rack) {
                assert(groups.contains_key(m.rack));
                assert(groups[m.rack] == rack_members(head, m.rack));
            } else {
                assert(!groups.contains_key(m.rack));
                assert(!plain_racks(head).contains_key(m.rack));
                lemma_no_members(head, m.rack);
            }
            assert(node_models(members@) =~= rack_members(head, m.rack));
        }
        let ghost earlier = node_models(members@);
        members.push(n);
        let ghost grown = node_models(members@);
        out.insert(rack, members);
        proof {
            assert(grown =~= earlier.push(m));
            lemma_one_more_node(all.take(done), m);
            assert(all.take(done + 1) =~= all.take(done).push(m));
            assert(group_models(out) =~= groups.insert(m.rack, grown));
            assert(rest@ =~= nodes@.skip(done + 1));
            done = done + 1;
        }
    }
    proof {
        assert(all.take(done) =~= all);
    }
    out
}

/// The racks, each with its nodes by name.
pub fn group_by_rack(nodes: Vec<NodeView>) -> (r: TextMap<Vec<NodeView>>)
    ensures
        group_models(r) == racks_of(node_models(nodes@)),
{
    let ghost all = node_models(nodes@);
    let plain = gather(nodes);
    let ghost groups = group_models(plain);
    let mut rest = plain.into_entries();
    let ghost s = rest@;
    let ghost mut done: int = 0;
    let mut out: TextMap<Vec<NodeView>> = TextMap::new();
    proof {
        assert(s.skip(0) =~= s);
        assert(group_models(out) =~= Map::empty());
    }
    while rest.len() > 0
        invariant
            0 <= done <= s.len(),
            textmap::increasing(s),
            rest@ == s.skip(done),
            forall|k: Seq<char>| #[trigger]
                group_models(out).contains_key(k) <==> exists|i: int| i < done && textmap::key_at(s, k, i),
            forall|i: int|
                0 <= i < done ==> group_models(out)[(#[trigger] s[i]).0@] == sorting::arranged(
                    node_models(s[i].1@),
                    name_before(),
                ),
        decreases rest@.len(),
    {
        let ghost before = group_models(out);
        let (rack, members) = rest.remove(0);
        let ghost k = rack@;
        let sorted = sort_by_name(members);
        let ghost v = node_models(sorted@);
        out.insert(rack, sorted);
        proof {
            assert(s[done].0@ == k);
            assert(group_models(out) =~= before.insert(k, v));
            assert(rest@ =~= s.skip(done + 1));
            assert(textmap::key_at(s, k, done));
            assert forall|x: Seq<char>| #[trigger] group_models(out).contains_key(x) <==> exists|i: int|
                i < done + 1 && textmap::key_at(s, x, i) by {
                if exists|i: int| i < done + 1 && textmap::key_at(s, x, i) {
                    let i = choose|i: int| i < done + 1 && textmap::key_at(s, x, i);
                    if i < done {
                        assert(i < done && textmap::key_at(s, x, i));
                    }
                }
                if before.contains_key(x) {
                    let i = choose|i: int| i < done && textmap::key_at(s, x, i);
                    assert(i < done + 1 && textmap::key_at(s, x, i));
                }
            }
            assert forall|i: int| 0 <= i < done + 1 implies group_models(out)[(#[trigger] s[i]).0@]
                == sorting::arranged(node_models(s[i].1@), name_before()) by {
                if i < done && s[i].0@ == k {
                    textmap::lemma_key_once(s, i, done);
                }
            }
            done = done + 1;
        }
    }
    proof {
        let want = racks_of(all);
        let got = group_models(out);
        assert forall|k: Seq<char>| got.contains_key(k) == want.contains_key(k) by {
            assert(groups.contains_key(k) == textmap::map_of(s).contains_key(k));
            assert(plain_racks(all).contains_key(k) == has_rack(all, k));
            if textmap::map_of(s).contains_key(k) {
                let i = choose|i: int| textmap::key_at(s, k, i);
                assert(i < done && textmap::key_at(s, k, i));
            }
        }
        assert forall|k: Seq<char>| got.contains_key(k) implies got[k] == want[k] by {
            let i = choose|i: int| i < done && textmap::key_at(s, k, i);
            textmap::lemma_map_at(s, i);
            assert(groups[k] == node_models(s[i].1@));
            assert(groups.contains_key(k));
            assert(plain_racks(all)[k] == rack_members(all, k));
        }
        assert(got =~= want);
    }
    out
}

// ---------------------------------------------------------------------
// The next pair
// ---------------------------------------------------------------------

/// One node's last probe is longer ago than another's: never comes first,
/// then the earlier time, then the lesser name.
pub open spec fn older_model(a: NodeModel, b: NodeModel) -> bool {
    match (a.last_at, b.last_at) {
        (None, None) => text::text_lt(a.name, b.name),
        (None, Some(_)) => true,
        (Some(_), None) => false,
        (Some(x), Some(y)) => text::text_lt(x, y) || (x == y && text::text_lt(a.name, b.name)),
    }
}

/// The same of nodes.
pub open spec fn older() -> spec_fn(NodeView, NodeView) -> bool {
    |a: NodeView, b: NodeView| older_model(a@, b@)
}

/// The last probe is more recent than the cutoff.
pub open spec fn is_fresh(n: NodeView, cutoff: Seq<char>) -> bool {
    match n.last_at {
        Some(t) => text::text_lt(cutoff, t@),
        None => false,
    }
}

/// The nodes, the one that was probed longest ago first.
pub open spec fn by_age(members: Seq<NodeView>) -> Seq<NodeView> {
    sorting::arranged(members, older())
}

/// The next pair of a rack: its two oldest nodes, unless both are fresh.
pub open spec fn next_pair(members: Seq<NodeView>, cutoff: Seq<char>) -> Option<(NodeView, NodeView)> {
    if members.len() < 2 {
        None
    } else {
        let a = by_age(members)[0];
        let b = by_age(members)[1];
        if is_fresh(a, cutoff) && is_fresh(b, cutoff) {
            None
        } else {
            Some((a, b))
        }
    }
}

fn is_older(a: &NodeView, b: &NodeView) -> (r: bool)
    ensures
        r == older_model(a@, b@),
{
    match (&a.last_at, &b.last_at) {
        (None, None) => text::less(a.name.as_str(), b.name.as_str()),
        (None, Some(_)) => true,
        (Some(_), None) => false,
        (Some(x), Some(y)) => text::less(x.as_str(), y.as_str()) || (text::same(x.as_str(), y.as_str())
            && text::less(a.name.as_str(), b.name.as_str())),
    }
}

fn ref_older<'a>(a: &&'a NodeView, b: &&'a NodeView) -> (r: bool)
    ensures
        r == older_model(a@, b@),
{
    is_older(*a, *b)
}

fn fresh(n: &NodeView, cutoff: &str) -> (r: bool)
    ensures
        r == is_fresh(*n, cutoff@),
{
    match &n.last_at {
        Some(t) => text::less(cutoff, t.as_str()),
        None => false,
    }
}

/// The next pair to probe in a rack, or nothing if both its oldest nodes
/// were probed more recently than the cutoff.
pub fn pick_pair<'a>(members: &'a [NodeView], cadence_cutoff_rfc3339: &str) -> (r: Option<
    (&'a NodeView, &'a NodeView),
>)
    ensures
        match r {
            Some((a, b)) => next_pair(members@, cadence_cutoff_rfc3339@) == Some((*a, *b)),
            None => next_pair(members@, cadence_cutoff_rfc3339@) is None,
        },
{
    if members.len() < 2 {
        return None;
    }
    let mut refs: Vec<&'a NodeView> = Vec::new();
    let mut i: usize = 0;
    while i < members.len()
        invariant
            i <= members@.len(),
            refs@.len() == i,
            forall|k: int| 0 <= k < i ==> *(#[trigger] refs@[k]) == members@[k],
        decreases members@.len() - i,
    {
        refs.push(&members[i]);
        i = i + 1;
    }
    let ghost plain = refs@;
    let ghost f = |n: &'a NodeView| *n;
    let ghost before = |a: &'a NodeView, b: &'a NodeView| older_model(a@, b@);
    let sorted = sorting::arrange(refs, ref_older, Ghost(before));
    proof {
        sorting::lemma_arranged_map(plain, f, before, older());
        assert(plain.map_values(f) =~= members@);
        sorting::lemma_arranged_same_elements(plain, before);
        assert(sorted@.map_values(f)[0] == by_age(members@)[0]);
        assert(sorted@.map_values(f)[1] == by_age(members@)[1]);
    }
    let a = sorted[0];
    let b = sorted[1];
    if fresh(a, cadence_cutoff_rfc3339) && fresh(b, cadence_cutoff_rfc3339) {
        return None;
    }
    Some((a, b))
}

proof fn lemma_older_ranking()
    ensures
        sorting::is_ranking(older()),
{
    let before = older();
    let by_text = sorting::text_before();
    sorting::lemma_text_ranking();
    assert forall|a: NodeView, b: NodeView| #[trigger] before(a, b) implies !before(b, a) by {
        let (x, y) = (a@, b@);
        lemma_older_asymmetric(x, y);
    }
    assert forall|a: NodeView, b: NodeView, c: NodeView| #[trigger]
        before(a, c) && !before(b, c) implies #[trigger] before(a, b) by {
        lemma_older_divides(a@, b@, c@);
    }
}

proof fn lemma_older_asymmetric(a: NodeModel, b: NodeModel)
    requires
        older_model(a, b),
    ensures
        !older_model(b, a),
{
    if text::text_lt(a.name, b.name) {
        text::lemma_text_lt_asymmetric(a.name, b.name);
    }
    match (a.last_at, b.last_at) {
        (Some(x), Some(y)) => {
            if text::text_lt(x, y) {
                text::lemma_text_lt_asymmetric(x, y);
            }
            if text::text_lt(y, x) {
                text::lemma_text_lt_asymmetric(y, x);
            }
        },
        _ => {},
    }
}

proof fn lemma_text_divides(a: Seq<char>, b: Seq<char>, c: Seq<char>)
    requires
        text::text_lt(a, c),
        !text::text_lt(b, c),
    ensures
        text::text_lt(a, b),
{
    text::lemma_text_lt_total(b, c);
    if b != c {
        text::lemma_text_lt_transitive(a, c, b);
    }
}

proof fn lemma_older_divides(a: NodeModel, b: NodeModel, c: NodeModel)
    requires
        older_model(a, c),
        !older_model(b, c),
    ensures
        older_model(a, b),
{
    match (a.last_at, b.last_at, c.last_at) {
        (None, None, None) => {
            lemma_text_divides(a.name, b.name, c.name);
        },
        (Some(x), Some(y), Some(z)) => {
            text::lemma_text_lt_total(y, z);
            if text::text_lt(x, z) {
                lemma_text_divides(x, y, z);
            } else if y == z {
                lemma_text_divides(a.name, b.name, c.name);
            }
        },
        _ => {},
    }
}

/// Of a rack's nodes none was probed longer ago than the first of its next
/// pair, and none but that one longer ago than the second.
pub proof fn law_pair_is_oldest(members: Seq<NodeView>, cutoff: Seq<char>)
    requires
        next_pair(members, cutoff) is Some,
    ensures
        ({
            let (a, b) = next_pair(members, cutoff)->0;
            let sorted = by_age(members);
            &&& sorted.to_multiset() == members.to_multiset()
            &&& sorted[0] == a && sorted[1] == b
            &&& forall|i: int| 0 < i < sorted.len() ==> !older_model((#[trigger] sorted[i])@, a@)
            &&& forall|i: int| 1 < i < sorted.len() ==> !older_model((#[trigger] sorted[i])@, b@)
        }),
{
    let before = older();
    lemma_older_ranking();
    sorting::lemma_arranged_in_order(members, before);
    sorting::lemma_arranged_same_elements(members, before);
    let sorted = by_age(members);
    assert forall|i: int| 0 < i < sorted.len() implies !older_model((#[trigger] sorted[i])@, sorted[0]@) by {
        assert(!before(sorted[i], sorted[0]));
    }
    assert forall|i: int| 1 < i < sorted.len() implies !older_model((#[trigger] sorted[i])@, sorted[1]@) by {
        assert(!before(sorted[i], sorted[1]));
    }
}

/// A rack of two or more nodes is probed if any of its nodes was never
/// probed or was last probed at the cutoff or before it.
pub proof fn law_stale_rack_is_probed(members: Seq<NodeView>, cutoff: Seq<char>, i: int)
    requires
        members.len() >= 2,
        0 <= i < members.len(),
        !is_fresh(members[i], cutoff),
    ensures
        next_pair(members, cutoff) is Some,
{
    let before = older();
    let sorted = by_age(members);
    lemma_older_ranking();
    sorting::lemma_arranged_in_order(members, before);
    sorting::lemma_arranged_same_elements(members, before);
    sorting::lemma_arranged_contains(members, before, members[i]);
    assert(members.contains(members[i]));
    let k = choose|k: int| 0 <= k < sorted.len() && sorted[k] == members[i];
    if k > 0 && is_fresh(sorted[0], cutoff) {
        assert(!before(sorted[k], sorted[0]));
        let a = sorted[0]@.last_at->0;
        match sorted[k]@.last_at {
            Some(t) => {
                text::lemma_text_lt_total(a, t);
                if text::text_lt(a, t) {
                    text::lemma_text_lt_transitive(cutoff, a, t);
                }
            },
            None => {},
        }
    }
}

// ---------------------------------------------------------------------
// Single nodes
// ---------------------------------------------------------------------

/// When a node was last probed by itself.
pub open spec fn last_loopback(m: TextMap<String>, name: Seq<char>) -> Option<Seq<char>> {
    if m@.contains_key(name) {
        Some(m@[name]@)
    } else {
        None
    }
}

/// When each named node was last probed by itself. Of two nodes with one
/// name the later one counts, if it has a time.
pub open spec fn loopback_times(nodes: Seq<NodeObject>) -> Map<Seq<char>, Seq<char>>
    decreases nodes.len(),
{
    if nodes.len() == 0 {
        Map::empty()
    } else {
        let head = loopback_times(nodes.drop_last());
        let n = nodes.last();
        match (n.name, node::lookup(n.annotations, "accel-test.lunnova.dev/last-loopback-at"@)) {
            (Some(name), Some(t)) => head.insert(name@, t),
            _ => head,
        }
    }
}

/// When each named node was last probed by itself.
pub fn loopback_history(nodes: &Vec<NodeObject>) -> (r: TextMap<String>)
    ensures
        textmap::text_values(r) == loopback_times(nodes@),
{
    let mut out: TextMap<String> = TextMap::new();
    assert(textmap::text_values(out) =~= Map::empty());
    let mut i: usize = 0;
    while i < nodes.len()
        invariant
            i <= nodes@.len(),
            textmap::text_values(out) == loopback_times(nodes@.take(i as int)),
        decreases nodes@.len() - i,
    {
        proof {
            let t = nodes@.take(i + 1);
            assert(t.drop_last() =~= nodes@.take(i as int));
            assert(t.last() == nodes@[i as int]);
        }
        let at = node::value_of(&nodes[i].annotations, "accel-test.lunnova.dev/last-loopback-at");
        match (&nodes[i].name, at) {
            (Some(name), Some(t)) => {
                let ghost before = textmap::text_values(out);
                let ghost v = t@;
                out.insert(name.clone(), t);
                assert(textmap::text_values(out) =~= before.insert(name@, v));
            },
            _ => {},
        }
        i = i + 1;
    }
    assert(nodes@.take(nodes@.len() as int) =~= nodes@);
    out
}

/// The node to probe by itself: the only one of its rack, unless it was so
/// probed more recently than the cutoff.
pub open spec fn next_loopback(
    members: Seq<NodeView>,
    history: TextMap<String>,
    cutoff: Seq<char>,
) -> Option<NodeView> {
    if members.len() != 1 {
        None
    } else {
        match last_loopback(history, members[0].name@) {
            Some(t) => if text::text_lt(cutoff, t) {
                None
            } else {
                Some(members[0])
            },
            None => Some(members[0]),
        }
    }
}

/// The node of a rack to probe by itself.
pub fn pick_loopback<'a>(members: &'a [NodeView], history: &TextMap<String>, cutoff: &str) -> (r: Option<
    &'a NodeView,
>)
    ensures
        match r {
            Some(n) => next_loopback(members@, *history, cutoff@) == Some(*n),
            None => next_loopback(members@, *history, cutoff@) is None,
        },
{
    if members.len() != 1 {
        return None;
    }
    match history.get(members[0].name.as_str()) {
        Some(t) => if text::less(cutoff, t.as_str()) {
            None
        } else {
            Some(&members[0])
        },
        None => Some(&members[0]),
    }
}

/// A rack gets a pair or a single node, never both.
pub proof fn law_pair_excludes_loopback(members: Seq<NodeView>, history: TextMap<String>, cutoff: Seq<char>)
    ensures
        next_pair(members, cutoff) is None || next_loopback(members, history, cutoff) is None,
{
}

/// After a probe at `now` both its nodes are fresh for every cutoff before
/// then, whatever came of the probe, so that a failing node is not probed
/// more often than others.
pub proof fn law_probed_node_is_fresh(
    n: NodeObject,
    seen: NodeView,
    current: Map<Seq<char>, Seq<char>>,
    partner: Seq<char>,
    now: Seq<char>,
    verdict: annotations::VerdictModel,
    cutoff: Seq<char>,
)
    requires
        n.annotations is Some,
        textmap::text_values(n.annotations->0) == labeler::patched(
            current,
            annotations::body_of(annotations::Family::Rack, Some(partner), now, verdict),
        ),
        view_of(n) == Some(seen@),
        text::text_lt(cutoff, now),
    ensures
        seen@.last_at == Some(now),
        is_fresh(seen, cutoff),
{
    annotations::law_told_node_carries_verdict(
        current,
        annotations::Family::Rack,
        Some(partner),
        now,
        verdict,
    );
    assert(textmap::text_values(n.annotations->0).contains_key("accel-test.lunnova.dev/last-rack-at"@));
}

/// Among the labels of the topology is the rack that the daemon was told, and
/// none of RDMA.
proof fn lemma_labels_that_count(t: NodeTopology, accels: Seq<Accelerator>)
    ensures
        ({
            let all = labels::labels_of(t, accels);
            let rack = "accel-topo.lunnova.dev/rack"@;
            &&& !all.contains_key("accel-net.lunnova.dev/rdma"@)
            &&& all.contains_key(rack) == t.rack is Some
            &&& t.rack is Some ==> all[rack] == t.rack->0@
        }),
{
    let rack = "accel-topo.lunnova.dev/rack"@;
    let key = "accel-net.lunnova.dev/rdma"@;
    reveal_strlit("accel-net.lunnova.dev/rdma");
    reveal_strlit("accel-topo.lunnova.dev/block");
    reveal_strlit("accel-topo.lunnova.dev/rack");
    reveal_strlit("accel-topo.lunnova.dev/fabric-domain.");
    reveal_strlit("accel-topo.lunnova.dev/fabric-domains-count");
    reveal_strlit("accel.lunnova.dev/vendor.");
    reveal_strlit("accel.lunnova.dev/model.");
    reveal_strlit("accel.lunnova.dev/memory-kind.");
    reveal_strlit("accel.lunnova.dev/total-count");
    assert(key[6] != "accel-topo.lunnova.dev/block"@[6]);
    assert(key[6] != "accel-topo.lunnova.dev/rack"@[6]);
    assert(key[6] != "accel-topo.lunnova.dev/fabric-domains-count"@[6]);
    assert(key[5] != "accel.lunnova.dev/total-count"@[5]);
    assert(rack[23] != "accel-topo.lunnova.dev/block"@[23]);
    assert(rack[23] != "accel-topo.lunnova.dev/fabric-domains-count"@[23]);
    assert(rack[5] != "accel.lunnova.dev/total-count"@[5]);
    let domains = labels::tally(labels::domain_sizes(t.fabric_domains@));
    let vendors = labels::tally(labels::vendors(accels));
    let models = labels::tally(labels::model_slugs(accels));
    let kinds = labels::tally(labels::memory_kinds(accels));
    let physical = labels::physical_counts(accels);
    labels::lemma_not_count_label("accel-topo.lunnova.dev/fabric-domain."@, ""@, domains, key, 6);
    labels::lemma_not_count_label("accel.lunnova.dev/vendor."@, ".count"@, vendors, key, 5);
    labels::lemma_not_count_label("accel.lunnova.dev/model."@, ".count"@, models, key, 5);
    labels::lemma_not_count_label("accel.lunnova.dev/memory-kind."@, ".count"@, kinds, key, 5);
    labels::lemma_not_count_label("accel.lunnova.dev/vendor."@, ".physical-count"@, physical, key, 5);
    labels::lemma_not_count_label("accel-topo.lunnova.dev/fabric-domain."@, ""@, domains, rack, 23);
    labels::lemma_not_count_label("accel.lunnova.dev/vendor."@, ".count"@, vendors, rack, 5);
    labels::lemma_not_count_label("accel.lunnova.dev/model."@, ".count"@, models, rack, 5);
    labels::lemma_not_count_label("accel.lunnova.dev/memory-kind."@, ".count"@, kinds, rack, 5);
    labels::lemma_not_count_label("accel.lunnova.dev/vendor."@, ".physical-count"@, physical, rack, 5);
}

/// A named node that the daemon labelled can be probed if and only if a probe
/// can run on its RDMA devices and the daemon was told its rack, whatever
/// labels the node had before; and it is then seen in that rack.
pub proof fn law_labelled_node_is_seen(
    n: NodeObject,
    current: Map<Seq<char>, Seq<char>>,
    t: NodeTopology,
    accels: Seq<Accelerator>,
    devices: Seq<RdmaDevice>,
    r: NodeReadiness,
)
    requires
        n.name is Some,
        labeler::meta_values(n.labels) == labeler::patched(
            current,
            labeler::section(
                current,
                preflight::ready_labels(labels::rdma_labels(labels::labels_of(t, accels), devices), r),
            ),
        ),
    ensures
        view_of(n) is Some <==> t.rack is Some && rdma::has_active_roce(devices),
        view_of(n) is Some ==> view_of(n)->0.rack == t.rack->0@,
{
    let desired = preflight::ready_labels(labels::rdma_labels(labels::labels_of(t, accels), devices), r);
    let after = labeler::meta_values(n.labels);
    let (key, rack) = ("accel-net.lunnova.dev/rdma"@, "accel-topo.lunnova.dev/rack"@);
    lemma_labels_that_count(t, accels);
    labeler::law_patch_converges(current, desired, key);
    labeler::law_patch_converges(current, desired, rack);
    reveal_strlit("accel-net.lunnova.dev/");
    reveal_strlit("accel-net.lunnova.dev/rdma");
    reveal_strlit("accel-topo.lunnova.dev/");
    reveal_strlit("accel-topo.lunnova.dev/rack");
    reveal_strlit("accel-ready.lunnova.dev/inference");
    reveal_strlit("accel-ready.lunnova.dev/training");
    assert(key[6] != "accel-ready.lunnova.dev/inference"@[6]);
    assert(key[6] != "accel-ready.lunnova.dev/training"@[6]);
    assert(rack[6] != key[6]);
    assert(rack[6] != "accel-ready.lunnova.dev/inference"@[6]);
    assert(rack[6] != "accel-ready.lunnova.dev/training"@[6]);
    assert(key.take(22) =~= "accel-net.lunnova.dev/"@);
    assert(rack.take(23) =~= "accel-topo.lunnova.dev/"@);
    assert(after.contains_key(key) == rdma::has_active_roce(devices));
    assert(after.contains_key(rack) == (t.rack is Some));
    assert(node::lookup(n.labels, key) == if after.contains_key(key) {
        Some(after[key])
    } else {
        None
    });
    assert(node::lookup(n.labels, rack) == if after.contains_key(rack) {
        Some(after[rack])
    } else {
        None
    });
}

} // verus!
