//! The answers of the console's interface.

use super::k8s;
use super::k8s::{NodeModel, NodeView};
use crate::sorting;
use crate::text;
use crate::textmap::TextMap;
use vstd::prelude::*;

verus! {

/// How far back the latest value of a metric may lie, in seconds. The daemon
/// measures every few seconds, so that a short gap does not show.
pub const FLEET_WINDOW_SECS: u64 = 300;

// ---------------------------------------------------------------------
// Errors and health
// ---------------------------------------------------------------------

/// An error answer. Its HTTP status is that of a gateway whose other side
/// failed.
#[derive(Debug)]
pub struct ApiError {
    pub status: u16,
    pub source: &'static str,
    pub message: String,
}

impl ApiError {
    /// The cluster failed.
    pub fn cluster(message: String) -> (r: Self)
        ensures
            r.status == 502,
            r.source@ == "cluster"@,
            r.message == message,
    {
        ApiError { status: 502, source: "cluster", message }
    }

    /// The telemetry store failed.
    pub fn upstream(message: String) -> (r: Self)
        ensures
            r.status == 502,
            r.source@ == "mutel"@,
            r.message == message,
    {
        ApiError { status: 502, source: "mutel", message }
    }
}

/// Whether a service is there.
#[derive(Debug)]
pub struct ServiceStatus {
    pub ok: bool,
    pub error: Option<String>,
}

/// The status of a service that answered, or did not for the given reason.
pub fn service_status(answer: Result<(), String>) -> (r: ServiceStatus)
    ensures
        r.ok == answer is Ok,
        r.error == match answer {
            Ok(_) => None,
            Err(e) => Some(e),
        },
{
    match answer {
        Ok(_) => ServiceStatus { ok: true, error: None },
        Err(e) => ServiceStatus { ok: false, error: Some(e) },
    }
}

/// The status of the cluster, which may have no client.
pub fn cluster_status(answer: Option<Result<(), String>>) -> (r: ServiceStatus)
    ensures
        r.ok == (answer matches Some(a) && a is Ok),
        text::opt_text(r.error) == match answer {
            Some(Ok(_)) => None,
            Some(Err(e)) => Some(e@),
            None => Some("k8s client disabled or unavailable"@),
        },
{
    match answer {
        Some(a) => service_status(a),
        None => ServiceStatus {
            ok: false,
            error: Some("k8s client disabled or unavailable".to_owned()),
        },
    }
}

// ---------------------------------------------------------------------
// Probes
// ---------------------------------------------------------------------

/// The last probe of a node.
#[derive(Debug)]
pub struct ProbeRow {
    pub node: String,
    pub rack: Option<String>,
    pub at: Option<String>,
    pub bandwidth_gbps: Option<String>,
    pub partner: Option<String>,
    pub verdict: Option<String>,
}

/// The model of the last probe of a node.
#[verifier::ext_equal]
pub struct RowModel {
    pub node: Seq<char>,
    pub rack: Option<Seq<char>>,
    pub probe: k8s::ProbeModel,
}

impl View for ProbeRow {
    type V = RowModel;

    open spec fn view(&self) -> RowModel {
        RowModel {
            node: self.node@,
            rack: text::opt_text(self.rack),
            probe: k8s::ProbeModel {
                at: text::opt_text(self.at),
                bandwidth_gbps: text::opt_text(self.bandwidth_gbps),
                partner: text::opt_text(self.partner),
                verdict: text::opt_text(self.verdict),
            },
        }
    }
}

/// The models of rows.
pub open spec fn row_models(v: Seq<ProbeRow>) -> Seq<RowModel> {
    v.map_values(|r: ProbeRow| r@)
}

/// The last probes of the nodes that have one, in the order of the nodes.
pub open spec fn rows_of(nodes: Seq<NodeModel>) -> Seq<RowModel>
    decreases nodes.len(),
{
    if nodes.len() == 0 {
        Seq::empty()
    } else {
        let head = rows_of(nodes.drop_last());
        let n = nodes.last();
        match n.last_probe {
            Some(probe) => head.push(RowModel { node: n.name, rack: n.rack, probe }),
            None => head,
        }
    }
}

/// The one time is later than the other. No time is before any other.
pub open spec fn later(a: Option<Seq<char>>, b: Option<Seq<char>>) -> bool {
    match (a, b) {
        (Some(x), Some(y)) => text::text_lt(y, x),
        (Some(_), None) => true,
        (None, _) => false,
    }
}

/// Rows with the latest one first.
pub open spec fn latest_first() -> spec_fn(RowModel, RowModel) -> bool {
    |a: RowModel, b: RowModel| later(a.probe.at, b.probe.at)
}

/// The same of the rows themselves.
spec fn row_before() -> spec_fn(ProbeRow, ProbeRow) -> bool {
    |a: ProbeRow, b: ProbeRow| later(a@.probe.at, b@.probe.at)
}

fn is_later(a: &ProbeRow, b: &ProbeRow) -> (r: bool)
    ensures
        r == later(a@.probe.at, b@.probe.at),
{
    match (&a.at, &b.at) {
        (Some(x), Some(y)) => text::less(y.as_str(), x.as_str()),
        (Some(_), None) => true,
        (None, _) => false,
    }
}

fn rows(nodes: Vec<NodeView>) -> (r: Vec<ProbeRow>)
    ensures
        row_models(r@) == rows_of(k8s::node_models(nodes@)),
{
    let ghost all = k8s::node_models(nodes@);
    let mut rest = nodes;
    let mut out: Vec<ProbeRow> = Vec::new();
    let ghost mut done: int = 0;
    proof {
        assert(nodes@.skip(0) =~= nodes@);
        assert(all.take(0) =~= Seq::empty());
        assert(row_models(out@) =~= Seq::empty());
    }
    while rest.len() > 0
        invariant
            all == k8s::node_models(nodes@),
            0 <= done <= nodes@.len(),
            rest@ == nodes@.skip(done),
            row_models(out@) == rows_of(all.take(done)),
        decreases rest@.len(),
    {
        let n = rest.remove(0);
        proof {
            assert(n == nodes@[done]);
            assert(all[done] == n@);
            assert(all.take(done + 1).drop_last() =~= all.take(done));
            assert(rest@ =~= nodes@.skip(done + 1));
            done = done + 1;
        }
        match n.last_probe {
            Some(p) => {
                let ghost before = row_models(out@);
                let ghost m = RowModel { node: n.name@, rack: text::opt_text(n.rack), probe: p@ };
                out.push(
                    ProbeRow {
                        node: n.name,
                        rack: n.rack,
                        at: p.at,
                        bandwidth_gbps: p.bandwidth_gbps,
                        partner: p.partner,
                        verdict: p.verdict,
                    },
                );
                assert(row_models(out@) =~= before.push(m));
            },
            None => {},
        }
    }
    assert(all.take(all.len() as int) =~= all);
    out
}

/// The last probes of the nodes, the latest first; probes without a time
/// come last.
pub fn probes(nodes: Vec<NodeView>) -> (r: Vec<ProbeRow>)
    ensures
        row_models(r@) == sorting::arranged(rows_of(k8s::node_models(nodes@)), latest_first()),
{
    let list = rows(nodes);
    let ghost plain = list@;
    let sorted = sorting::arrange(list, is_later, Ghost(row_before()));
    proof {
        let f = |r: ProbeRow| r@;
        assert forall|a: ProbeRow, b: ProbeRow| #[trigger] row_before()(a, b) == latest_first()(f(a), f(b)) by {
        }
        sorting::lemma_arranged_map(plain, f, row_before(), latest_first());
    }
    sorted
}

/// No probe in the list is later than one before it.
pub proof fn law_probes_latest_first(rows: Seq<RowModel>, i: int, j: int)
    requires
        0 <= i < j < rows.len(),
    ensures
        !later(
            sorting::arranged(rows, latest_first())[j].probe.at,
            sorting::arranged(rows, latest_first())[i].probe.at,
        ),
        sorting::arranged(rows, latest_first()).to_multiset() == rows.to_multiset(),
{
    let before = latest_first();
    assert(sorting::is_ranking(before)) by {
        assert forall|a: RowModel, b: RowModel| #[trigger] before(a, b) implies !before(b, a) by {
            match (a.probe.at, b.probe.at) {
                (Some(x), Some(y)) => {
                    text::lemma_text_lt_asymmetric(y, x);
                },
                _ => {},
            }
        }
        assert forall|a: RowModel, b: RowModel, c: RowModel|
            !(#[trigger] before(a, b)) && !(#[trigger] before(b, c)) implies !before(a, c) by {
            match (a.probe.at, b.probe.at, c.probe.at) {
                (Some(x), Some(y), Some(z)) => {
                    text::lemma_text_lt_total(y, x);
                    text::lemma_text_lt_total(z, y);
                    if text::text_lt(z, x) {
                        if text::text_lt(x, y) {
                            text::lemma_text_lt_transitive(z, x, y);
                        }
                    }
                },
                _ => {},
            }
        }
    }
    sorting::lemma_arranged_in_order(rows, before);
    sorting::lemma_arranged_same_elements(rows, before);
}

// ---------------------------------------------------------------------
// The fleet
// ---------------------------------------------------------------------

/// What the telemetry store answered to the queries about the fleet: the
/// latest value on each node, or why there is none.
pub struct FleetAnswers<N> {
    pub vram_used: Result<TextMap<N>, String>,
    pub vram_total: Result<TextMap<N>, String>,
    pub dedicated_total: Result<TextMap<N>, String>,
    pub power: Result<TextMap<N>, String>,
    pub temperature: Result<TextMap<N>, String>,
    pub utilization: Result<TextMap<N>, String>,
}

/// What is known of a node at present.
#[derive(Debug)]
pub struct NodeFleetMetrics<N> {
    pub memory_used_bytes: Option<N>,
    pub memory_total_bytes: Option<N>,
    pub power_watts: Option<N>,
    pub temp_c: Option<N>,
    pub utilization: Option<N>,
}

/// The fleet at present.
pub struct Fleet<N> {
    /// Every query was answered.
    pub available: bool,
    /// Why the first one that was not, was not.
    pub error: Option<String>,
    pub by_node: TextMap<NodeFleetMetrics<N>>,
    /// Of how many nodes something is known.
    pub nodes_with_data: usize,
}

/// The metric and the way of adding it up that each query asks for.
pub const FLEET_QUERIES: [(&'static str, &'static str); 6] = [
    ("accel.memory.vram.used", "sum"),
    ("accel.memory.vram.total", "sum"),
    ("accel.memory.dedicated.total", "sum"),
    ("accel.power.usage", "sum"),
    ("accel.temperature", "max"),
    ("accel.utilization", "avg"),
];

/// The values of an answer, none where it failed.
pub open spec fn values_in<N>(answer: Result<TextMap<N>, String>) -> Map<Seq<char>, N> {
    match answer {
        Ok(m) => m@,
        Err(_) => Map::empty(),
    }
}

/// The error so far, or that of the answer.
pub open spec fn error_after<N>(so_far: Option<Seq<char>>, answer: Result<TextMap<N>, String>) -> Option<
    Seq<char>,
> {
    match (so_far, answer) {
        (Some(e), _) => Some(e),
        (None, Err(e)) => Some(e@),
        (None, Ok(_)) => None,
    }
}

/// The first error of the answers.
pub open spec fn first_error<N>(a: FleetAnswers<N>) -> Option<Seq<char>> {
    error_after(
        error_after(
            error_after(
                error_after(
                    error_after(error_after(None, a.vram_used), a.vram_total),
                    a.dedicated_total,
                ),
                a.power,
            ),
            a.temperature,
        ),
        a.utilization,
    )
}

/// The value at a key, if there is one.
pub open spec fn at<N>(m: Map<Seq<char>, N>, key: Seq<char>) -> Option<N> {
    if m.contains_key(key) {
        Some(m[key])
    } else {
        None
    }
}

/// The memory of each node: its video memory, or, where that is not known,
/// its dedicated memory.
pub open spec fn memory_totals<N>(a: FleetAnswers<N>) -> Map<Seq<char>, N> {
    values_in(a.dedicated_total).union_prefer_right(values_in(a.vram_total))
}

/// What is known of a node.
pub open spec fn metrics_at<N>(a: FleetAnswers<N>, node: Seq<char>) -> NodeFleetMetrics<N> {
    NodeFleetMetrics {
        memory_used_bytes: at(values_in(a.vram_used), node),
        memory_total_bytes: at(memory_totals(a), node),
        power_watts: at(values_in(a.power), node),
        temp_c: at(values_in(a.temperature), node),
        utilization: at(values_in(a.utilization), node),
    }
}

/// Something is known of the node.
pub open spec fn is_known<N>(a: FleetAnswers<N>, node: Seq<char>) -> bool {
    ||| values_in(a.vram_used).contains_key(node)
    ||| memory_totals(a).contains_key(node)
    ||| values_in(a.power).contains_key(node)
    ||| values_in(a.temperature).contains_key(node)
    ||| values_in(a.utilization).contains_key(node)
}

/// The nodes of which something is known, with what is known.
pub open spec fn fleet_of<N>(a: FleetAnswers<N>) -> Map<Seq<char>, NodeFleetMetrics<N>> {
    Map::new(|node: Seq<char>| is_known(a, node), |node: Seq<char>| metrics_at(a, node))
}

fn take_values<N>(answer: Result<TextMap<N>, String>, error: Option<String>) -> (r: (
    TextMap<N>,
    Option<String>,
))
    ensures
        r.0@ == values_in(answer),
        text::opt_text(r.1) == error_after(text::opt_text(error), answer),
{
    match answer {
        Ok(m) => (m, error),
        Err(e) => (
            TextMap::new(),
            match error {
                Some(first) => Some(first),
                None => Some(e),
            },
        ),
    }
}

fn value_at<N: Copy>(m: &TextMap<N>, key: &str) -> (r: Option<N>)
    ensures
        r == at(m@, key@),
{
    match m.get(key) {
        Some(n) => Some(*n),
        None => None,
    }
}

/// The maps of the fleet, in the hands of the function that joins them.
struct FleetMaps<N> {
    used: TextMap<N>,
    vram_total: TextMap<N>,
    dedicated_total: TextMap<N>,
    power: TextMap<N>,
    temperature: TextMap<N>,
    utilization: TextMap<N>,
}

impl<N: Copy> FleetMaps<N> {
    /// The maps hold the values of the answers.
    spec fn holds(self, a: FleetAnswers<N>) -> bool {
        &&& self.used@ == values_in(a.vram_used)
        &&& self.vram_total@ == values_in(a.vram_total)
        &&& self.dedicated_total@ == values_in(a.dedicated_total)
        &&& self.power@ == values_in(a.power)
        &&& self.temperature@ == values_in(a.temperature)
        &&& self.utilization@ == values_in(a.utilization)
    }

    fn metrics(&self, node: &str, Ghost(a): Ghost<FleetAnswers<N>>) -> (r: NodeFleetMetrics<N>)
        requires
            self.holds(a),
        ensures
            r == metrics_at(a, node@),
    {
        let total = match value_at(&self.vram_total, node) {
            Some(n) => Some(n),
            None => value_at(&self.dedicated_total, node),
        };
        NodeFleetMetrics {
            memory_used_bytes: value_at(&self.used, node),
            memory_total_bytes: total,
            power_watts: value_at(&self.power, node),
            temp_c: value_at(&self.temperature, node),
            utilization: value_at(&self.utilization, node),
        }
    }

    /// Enters the nodes of one of the maps.
    fn enter(
        &self,
        out: &mut TextMap<NodeFleetMetrics<N>>,
        nodes: &TextMap<N>,
        Ghost(a): Ghost<FleetAnswers<N>>,
        Ghost(known): Ghost<Set<Seq<char>>>,
    )
        requires
            self.holds(a),
            old(out)@ == known_fleet(a, known),
        ensures
            final(out)@ == known_fleet(a, known.union(nodes@.dom())),
    {
        let entries = nodes.entries();
        let ghost s = entries@;
        let mut i: usize = 0;
        assert(known.union(keys_before(s, 0)) =~= known);
        while i < entries.len()
            invariant
                i <= entries@.len(),
                s == entries@,
                self.holds(a),
                out@ == known_fleet(a, known.union(keys_before(s, i as int))),
            decreases entries@.len() - i,
        {
            let m = self.metrics(entries[i].0.as_str(), Ghost(a));
            let ghost was = out@;
            out.insert(entries[i].0.clone(), m);
            proof {
                let k = s[i as int].0@;
                let grown = known.union(keys_before(s, i + 1));
                assert forall|x: Seq<char>| #[trigger] grown.contains(x) == (known.union(
                    keys_before(s, i as int),
                ).contains(x) || x == k) by {
                    if keys_before(s, i + 1).contains(x) {
                        let j = choose|j: int| 0 <= j < i + 1 && (#[trigger] s[j]).0@ == x;
                        if j < i {
                            assert(keys_before(s, i as int).contains(x));
                        }
                    }
                    if keys_before(s, i as int).contains(x) {
                        let j = choose|j: int| 0 <= j < i && (#[trigger] s[j]).0@ == x;
                        assert(s[j].0@ == x);
                    }
                }
                assert(out@ =~= known_fleet(a, grown));
            }
            i = i + 1;
        }
        proof {
            assert forall|x: Seq<char>| keys_before(s, s.len() as int).contains(x) == nodes@.dom().contains(x) by {
                if keys_before(s, s.len() as int).contains(x) {
                    let j = choose|j: int| 0 <= j < s.len() && (#[trigger] s[j]).0@ == x;
                    assert(crate::textmap::key_at(s, x, j));
                }
                if nodes@.dom().contains(x) {
                    let j = choose|j: int| crate::textmap::key_at(s, x, j);
                    assert(s[j].0@ == x);
                }
            }
            assert(keys_before(s, s.len() as int) =~= nodes@.dom());
        }
    }
}

/// The keys of the first `n` entries.
spec fn keys_before<N>(s: Seq<(String, N)>, n: int) -> Set<Seq<char>> {
    Set::new(|k: Seq<char>| exists|j: int| 0 <= j < n && (#[trigger] s[j]).0@ == k)
}

/// What is known of the given nodes.
spec fn known_fleet<N>(a: FleetAnswers<N>, nodes: Set<Seq<char>>) -> Map<Seq<char>, NodeFleetMetrics<N>> {
    Map::new(|node: Seq<char>| nodes.contains(node), |node: Seq<char>| metrics_at(a, node))
}

/// An answer holds a value for the node.
pub open spec fn tells_of<N>(answer: Result<TextMap<N>, String>, node: Seq<char>) -> bool {
    answer matches Ok(m) && m@.contains_key(node)
}

/// A value is the one that an answer holds for the node, and none exactly
/// where the answer failed or lacks the node.
pub open spec fn is_read_from<N>(
    value: Option<N>,
    answer: Result<TextMap<N>, String>,
    node: Seq<char>,
) -> bool {
    &&& value is Some <==> tells_of(answer, node)
    &&& answer matches Ok(m) ==> value matches Some(n) ==> n == m@[node]
}

/// The fleet at present. Where a query was not answered the others still
/// count, and nodes of which only a part is known are there.
pub fn fleet<N: Copy>(answers: FleetAnswers<N>) -> (r: Fleet<N>)
    ensures
        r.available <==> answers.vram_used is Ok && answers.vram_total is Ok && answers.dedicated_total is Ok
            && answers.power is Ok && answers.temperature is Ok && answers.utilization is Ok,
        forall|node: Seq<char>| #[trigger]
            r.by_node@.contains_key(node) <==> tells_of(answers.vram_used, node) || tells_of(
                answers.vram_total,
                node,
            ) || tells_of(answers.dedicated_total, node) || tells_of(answers.power, node) || tells_of(
                answers.temperature,
                node,
            ) || tells_of(answers.utilization, node),
        forall|node: Seq<char>| #[trigger]
            r.by_node@.contains_key(node) ==> is_read_from(r.by_node@[node].power_watts, answers.power, node),
        forall|node: Seq<char>| #[trigger]
            r.by_node@.contains_key(node) ==> is_read_from(
                r.by_node@[node].temp_c,
                answers.temperature,
                node,
            ),
        forall|node: Seq<char>| #[trigger]
            r.by_node@.contains_key(node) ==> is_read_from(
                r.by_node@[node].utilization,
                answers.utilization,
                node,
            ),
        forall|node: Seq<char>| #[trigger]
            r.by_node@.contains_key(node) ==> is_read_from(
                r.by_node@[node].memory_used_bytes,
                answers.vram_used,
                node,
            ),
        forall|node: Seq<char>| #[trigger]
            r.by_node@.contains_key(node) ==> if tells_of(answers.vram_total, node) {
                is_read_from(r.by_node@[node].memory_total_bytes, answers.vram_total, node)
            } else {
                is_read_from(r.by_node@[node].memory_total_bytes, answers.dedicated_total, node)
            },
        r.available == (first_error(answers) is None),
        text::opt_text(r.error) == first_error(answers),
        r.by_node@ == fleet_of(answers),
        fleet_of(answers).dom().finite(),
        r.nodes_with_data == fleet_of(answers).dom().len(),
{
    let ghost a = answers;
    let (used, error) = take_values(answers.vram_used, None);
    let (vram_total, error) = take_values(answers.vram_total, error);
    let (dedicated_total, error) = take_values(answers.dedicated_total, error);
    let (power, error) = take_values(answers.power, error);
    let (temperature, error) = take_values(answers.temperature, error);
    let (utilization, error) = take_values(answers.utilization, error);
    let maps = FleetMaps { used, vram_total, dedicated_total, power, temperature, utilization };
    let mut by_node: TextMap<NodeFleetMetrics<N>> = TextMap::new();
    let ghost k0 = Set::<Seq<char>>::empty();
    assert(by_node@ =~= known_fleet(a, k0));
    maps.enter(&mut by_node, &maps.used, Ghost(a), Ghost(k0));
    let ghost k1 = k0.union(values_in(a.vram_used).dom());
    maps.enter(&mut by_node, &maps.vram_total, Ghost(a), Ghost(k1));
    let ghost k2 = k1.union(values_in(a.vram_total).dom());
    maps.enter(&mut by_node, &maps.dedicated_total, Ghost(a), Ghost(k2));
    let ghost k3 = k2.union(values_in(a.dedicated_total).dom());
    maps.enter(&mut by_node, &maps.power, Ghost(a), Ghost(k3));
    let ghost k4 = k3.union(values_in(a.power).dom());
    maps.enter(&mut by_node, &maps.temperature, Ghost(a), Ghost(k4));
    let ghost k5 = k4.union(values_in(a.temperature).dom());
    maps.enter(&mut by_node, &maps.utilization, Ghost(a), Ghost(k5));
    assert(by_node@ =~= fleet_of(a));
    let nodes_with_data: usize = by_node.len();
    Fleet { available: error.is_none(), error, by_node, nodes_with_data }
}

} // verus!
