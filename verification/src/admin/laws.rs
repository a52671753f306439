//! What the console shows, in terms of what it was given.

use super::assets;
use super::assets::Asset;
use super::k8s;
use super::k8s::{NodeModel, SummaryModel};
use super::mutel;
use super::mutel::{Json, MetricQueryParams};
use super::routes;
use super::routes::{FleetAnswers, RowModel, FLEET_QUERIES};
use crate::k8s::node;
use crate::k8s::node::NodeObject;
use crate::number;
use crate::scan;
use crate::scan::CharClass;
use crate::sorting;
use crate::text;
use crate::textmap::TextMap;
use include_dir::Dir;
use vstd::prelude::*;

verus! {

// ---------------------------------------------------------------------
// Nodes
// ---------------------------------------------------------------------

/// A label or an annotation holds a number that fits 64 bits.
pub open spec fn number_at(m: Option<TextMap<String>>, key: Seq<char>) -> Option<nat> {
    match node::lookup(m, key) {
        Some(s) => number::bounded_of(s, 10, u64::MAX as nat),
        None => None,
    }
}

/// The counts are those in the labels between `prefix` and `suffix`.
pub open spec fn are_counts_at(
    counts: Map<Seq<char>, nat>,
    labels: Option<TextMap<String>>,
    prefix: Seq<char>,
    suffix: Seq<char>,
) -> bool {
    forall|k: Seq<char>|
        (counts.contains_key(k) <==> (#[trigger] number_at(labels, prefix + k + suffix)) is Some)
            && (counts.contains_key(k) ==> number_at(labels, prefix + k + suffix) == Some(counts[k]))
}

proof fn lemma_counts_at(labels: Option<TextMap<String>>, prefix: Seq<char>, suffix: Seq<char>)
    ensures
        are_counts_at(k8s::counts_in(k8s::label_map(labels), prefix, suffix), labels, prefix, suffix),
{
}

/// Where a node stands, how many accelerators it counts and whether it can be
/// used are what its labels, its conditions and its specification say.
pub proof fn law_node_is_shown(n: NodeObject)
    ensures
        n.name matches Some(s) ==> k8s::view_of(n).name == s@,
        n.name is None ==> k8s::view_of(n).name.len() == 0,
        k8s::view_of(n).rack == node::lookup(n.labels, "accel-topo.lunnova.dev/rack"@),
        k8s::view_of(n).block == node::lookup(n.labels, "accel-topo.lunnova.dev/block"@),
        are_counts_at(k8s::view_of(n).vendor_counts, n.labels, "accel.lunnova.dev/vendor."@, ".count"@),
        are_counts_at(k8s::view_of(n).model_counts, n.labels, "accel.lunnova.dev/model."@, ".count"@),
        k8s::view_of(n).total_accelerators == number_at(n.labels, "accel.lunnova.dev/total-count"@),
        match number_at(n.labels, "accel-topo.lunnova.dev/fabric-domains-count"@) {
            Some(d) => k8s::view_of(n).fabric_domains == d,
            None => k8s::view_of(n).fabric_domains == 0,
        },
        k8s::view_of(n).schedulable <==> !n.unschedulable,
        k8s::view_of(n).kubelet_version == text::opt_text(n.kubelet_version),
        n.conditions is None ==> !k8s::view_of(n).ready && k8s::view_of(n).conditions.len() == 0,
        n.conditions matches Some(v) ==> k8s::view_of(n).conditions.len() == v@.len(),
        n.conditions matches Some(v) ==> (k8s::view_of(n).ready <==> exists|i: int|
            0 <= i < v@.len() && (#[trigger] v@[i]).kind@ == "Ready"@ && v@[i].status@ == "True"@),
        n.conditions matches Some(v) ==> forall|i: int|
            0 <= i < v@.len() ==> k8s::view_of(n).conditions[i].kind == (#[trigger] v@[i]).kind@
                && k8s::view_of(n).conditions[i].status == v@[i].status@ && k8s::view_of(n).conditions[i].reason
                == text::opt_text(v@[i].reason),
{
    lemma_counts_at(n.labels, "accel.lunnova.dev/vendor."@, ".count"@);
    lemma_counts_at(n.labels, "accel.lunnova.dev/model."@, ".count"@);
    match n.conditions {
        Some(v) => {
            if node::any_says_ready(v@) {
                let i = choose|i: int| 0 <= i < v@.len() && node::says_ready(#[trigger] v@[i]);
                assert(v@[i].kind@ == "Ready"@);
            }
            if exists|i: int| 0 <= i < v@.len() && (#[trigger] v@[i]).kind@ == "Ready"@ && v@[i].status@ == "True"@ {
                let i = choose|i: int|
                    0 <= i < v@.len() && (#[trigger] v@[i]).kind@ == "Ready"@ && v@[i].status@ == "True"@;
                assert(node::says_ready(v@[i]));
            }
        },
        None => {},
    }
}

/// Among the labels that are shown are those of the topology, of the
/// accelerators and of the tests, as they stand, and no others.
pub proof fn law_own_labels_are_shown(n: NodeObject, rest: Seq<char>, other: Seq<char>)
    ensures
        ({
            let shown = k8s::view_of(n).topo_labels;
            let topo = "accel-topo.lunnova.dev/"@ + rest;
            let accel = "accel.lunnova.dev/"@ + rest;
            let test = "accel-test.lunnova.dev/"@ + rest;
            &&& routes::at(shown, topo) == node::lookup(n.labels, topo)
            &&& routes::at(shown, accel) == node::lookup(n.labels, accel)
            &&& routes::at(shown, test) == node::lookup(n.labels, test)
            &&& shown.contains_key(other) ==> node::lookup(n.labels, other) == Some(shown[other]) && (
            scan::has_prefix(other, "accel-topo.lunnova.dev/"@) || scan::has_prefix(
                other,
                "accel.lunnova.dev/"@,
            ) || scan::has_prefix(other, "accel-test.lunnova.dev/"@))
        }),
{
    let topo = "accel-topo.lunnova.dev/"@ + rest;
    let accel = "accel.lunnova.dev/"@ + rest;
    let test = "accel-test.lunnova.dev/"@ + rest;
    assert(topo.take("accel-topo.lunnova.dev/"@.len() as int) =~= "accel-topo.lunnova.dev/"@);
    assert(accel.take("accel.lunnova.dev/"@.len() as int) =~= "accel.lunnova.dev/"@);
    assert(test.take("accel-test.lunnova.dev/"@.len() as int) =~= "accel-test.lunnova.dev/"@);
}

/// A figure is what stands in an annotation, if that is a number.
pub open spec fn is_figure(s: Option<Seq<char>>) -> bool {
    s matches Some(t) && number::is_float_literal(t)
}

/// Where the annotations tell of a probe with another node, that probe is
/// shown: its time, partner and verdict, and the bandwidth under the long
/// name, or else under the short one.
pub proof fn law_pair_probe_is_shown(n: NodeObject)
    requires
        ({
            let a = n.annotations;
            ||| node::lookup(a, "accel-test.lunnova.dev/last-rack-at"@) is Some
            ||| node::lookup(a, "accel-test.lunnova.dev/last-rack-partner"@) is Some
            ||| node::lookup(a, "accel-test.lunnova.dev/last-rack-verdict"@) is Some
            ||| is_figure(node::lookup(a, "accel-test.lunnova.dev/last-rack-bandwidth-gbps"@))
            ||| is_figure(node::lookup(a, "accel-test.lunnova.dev/last-rack-bw-gbps"@))
        }),
    ensures
        k8s::view_of(n).last_probe matches Some(p) && {
            let a = n.annotations;
            let long = node::lookup(a, "accel-test.lunnova.dev/last-rack-bandwidth-gbps"@);
            let short = node::lookup(a, "accel-test.lunnova.dev/last-rack-bw-gbps"@);
            &&& p.at == node::lookup(a, "accel-test.lunnova.dev/last-rack-at"@)
            &&& p.partner == node::lookup(a, "accel-test.lunnova.dev/last-rack-partner"@)
            &&& p.verdict == node::lookup(a, "accel-test.lunnova.dev/last-rack-verdict"@)
            &&& is_figure(long) ==> p.bandwidth_gbps == long
            &&& !is_figure(long) && is_figure(short) ==> p.bandwidth_gbps == short
            &&& !is_figure(long) && !is_figure(short) ==> p.bandwidth_gbps is None
        },
{
}

/// Where the annotations tell of no probe with another node, the probe of
/// the node by itself is shown, which has no partner, if there is one.
pub proof fn law_loopback_probe_is_shown(n: NodeObject)
    requires
        node::lookup(n.annotations, "accel-test.lunnova.dev/last-rack-at"@) is None,
        node::lookup(n.annotations, "accel-test.lunnova.dev/last-rack-partner"@) is None,
        node::lookup(n.annotations, "accel-test.lunnova.dev/last-rack-verdict"@) is None,
        !is_figure(node::lookup(n.annotations, "accel-test.lunnova.dev/last-rack-bandwidth-gbps"@)),
        !is_figure(node::lookup(n.annotations, "accel-test.lunnova.dev/last-rack-bw-gbps"@)),
    ensures
        ({
            let a = n.annotations;
            let at = node::lookup(a, "accel-test.lunnova.dev/last-loopback-at"@);
            let verdict = node::lookup(a, "accel-test.lunnova.dev/last-loopback-verdict"@);
            let figure = node::lookup(a, "accel-test.lunnova.dev/last-loopback-bw-gbps"@);
            match k8s::view_of(n).last_probe {
                Some(p) => {
                    &&& at is Some || verdict is Some || is_figure(figure)
                    &&& p.at == at
                    &&& p.verdict == verdict
                    &&& p.partner is None
                    &&& is_figure(figure) ==> p.bandwidth_gbps == figure
                    &&& !is_figure(figure) ==> p.bandwidth_gbps is None
                },
                None => at is None && verdict is None && !is_figure(figure),
            }
        }),
{
}

// ---------------------------------------------------------------------
// The cluster at a glance
// ---------------------------------------------------------------------

/// The last probe of a node ended with a verdict.
pub open spec fn ended(n: NodeModel) -> bool {
    n.last_probe matches Some(p) && p.verdict is Some
}

/// The last probe of a node ended with the verdict.
pub open spec fn ended_with(n: NodeModel, verdict: Seq<char>) -> bool {
    n.last_probe matches Some(p) && p.verdict == Some(verdict)
}

proof fn lemma_filter_counts(nodes: Seq<NodeModel>, such: spec_fn(NodeModel) -> bool, keep: spec_fn(NodeModel) -> bool)
    requires
        forall|n: NodeModel| #[trigger] such(n) == keep(n),
    ensures
        k8s::how_many(nodes, such) == nodes.filter(keep).len(),
    decreases nodes.len(),
{
    if nodes.len() == 0 {
        assert(nodes.filter(keep) =~= Seq::empty()) by {
            reveal(Seq::filter);
        }
    } else {
        lemma_filter_counts(nodes.drop_last(), such, keep);
        assert(nodes =~= nodes.drop_last().push(nodes.last()));
        sorting::lemma_filter_push(nodes.drop_last(), nodes.last(), keep);
        assert(such(nodes.last()) == keep(nodes.last()));
    }
}

proof fn lemma_names(nodes: Seq<NodeModel>, rack: Seq<char>)
    ensures
        k8s::names_in(nodes, rack) == nodes.filter(|n: NodeModel| n.rack == Some(rack)).map_values(
            |n: NodeModel| n.name,
        ),
    decreases nodes.len(),
{
    let keep = |n: NodeModel| n.rack == Some(rack);
    let name = |n: NodeModel| n.name;
    if nodes.len() == 0 {
        assert(nodes.filter(keep) =~= Seq::empty()) by {
            reveal(Seq::filter);
        }
        assert(k8s::names_in(nodes, rack) =~= nodes.filter(keep).map_values(name));
    } else {
        lemma_names(nodes.drop_last(), rack);
        assert(nodes =~= nodes.drop_last().push(nodes.last()));
        sorting::lemma_filter_push(nodes.drop_last(), nodes.last(), keep);
        assert(k8s::names_in(nodes, rack) =~= nodes.filter(keep).map_values(name));
    }
}

/// Every node counts, and every ready one among the ready ones; a verdict
/// counts the nodes whose last probe ended with it.
pub proof fn law_summary_counts_nodes(nodes: Seq<NodeModel>, verdict: Seq<char>)
    ensures
        k8s::summary_of(nodes).nodes_total == nodes.len(),
        k8s::summary_of(nodes).nodes_ready == nodes.filter(|n: NodeModel| n.ready).len(),
        ({
            let k = nodes.filter(|n: NodeModel| ended_with(n, verdict)).len();
            let counts = k8s::summary_of(nodes).probe_verdicts;
            &&& counts.contains_key(verdict) <==> k > 0
            &&& k > 0 ==> counts[verdict] == k
        }),
{
    lemma_filter_counts(nodes, k8s::readiness(), |n: NodeModel| n.ready);
    lemma_filter_counts(nodes, k8s::with_verdict(verdict), |n: NodeModel| ended_with(n, verdict));
}

/// A rack is there if a node is in it. It lists the names of its nodes in
/// their order, and counts those whose last probe ended with `pass` or `ok`
/// as healthy and those whose last probe ended otherwise as failed.
pub proof fn law_summary_of_a_rack(nodes: Seq<NodeModel>, rack: Seq<char>)
    ensures
        ({
            let own = nodes.filter(|n: NodeModel| n.rack == Some(rack));
            let racks = k8s::summary_of(nodes).racks;
            &&& racks.contains_key(rack) <==> own.len() > 0
            &&& own.len() > 0 ==> racks[rack].nodes == own.map_values(|n: NodeModel| n.name)
            &&& own.len() > 0 ==> racks[rack].healthy_probes == nodes.filter(
                |n: NodeModel| n.rack == Some(rack) && (ended_with(n, "pass"@) || ended_with(n, "ok"@)),
            ).len()
            &&& own.len() > 0 ==> racks[rack].failed_probes == nodes.filter(
                |n: NodeModel|
                    n.rack == Some(rack) && ended(n) && !ended_with(n, "pass"@) && !ended_with(n, "ok"@),
            ).len()
        }),
{
    lemma_filter_counts(nodes, k8s::in_rack(rack), |n: NodeModel| n.rack == Some(rack));
    lemma_filter_counts(
        nodes,
        k8s::healthy_in_rack(rack),
        |n: NodeModel| n.rack == Some(rack) && (ended_with(n, "pass"@) || ended_with(n, "ok"@)),
    );
    lemma_filter_counts(
        nodes,
        k8s::failed_in_rack(rack),
        |n: NodeModel| n.rack == Some(rack) && ended(n) && !ended_with(n, "pass"@) && !ended_with(n, "ok"@),
    );
    lemma_names(nodes, rack);
}

/// How many accelerators of a vendor a summary counts.
pub open spec fn vendor_total(s: SummaryModel, vendor: Seq<char>) -> nat {
    if s.vendor_totals.contains_key(vendor) {
        s.vendor_totals[vendor]
    } else {
        0
    }
}

proof fn lemma_vendor_absent(nodes: Seq<NodeModel>, vendor: Seq<char>)
    requires
        k8s::how_many(nodes, k8s::with_vendor(vendor)) == 0,
    ensures
        k8s::vendor_sum(nodes, vendor) == 0,
    decreases nodes.len(),
{
    if nodes.len() > 0 {
        lemma_vendor_absent(nodes.drop_last(), vendor);
    }
}

/// One more node adds what it counts of a vendor to the vendor's total, up
/// to the size of the number; without nodes there are no totals.
pub proof fn law_summary_adds_vendors(nodes: Seq<NodeModel>, n: NodeModel, vendor: Seq<char>)
    ensures
        k8s::summary_of(Seq::<NodeModel>::empty()).vendor_totals.dom() == Set::<Seq<char>>::empty(),
        n.vendor_counts.contains_key(vendor) ==> k8s::summary_of(nodes.push(n)).vendor_totals.contains_key(
            vendor,
        ) && vendor_total(k8s::summary_of(nodes.push(n)), vendor) == (vendor_total(
            k8s::summary_of(nodes),
            vendor,
        ) + n.vendor_counts[vendor]) % 0x1_0000_0000_0000_0000,
        !n.vendor_counts.contains_key(vendor) ==> k8s::summary_of(nodes.push(n)).vendor_totals.contains_key(
            vendor,
        ) == k8s::summary_of(nodes).vendor_totals.contains_key(vendor) && vendor_total(
            k8s::summary_of(nodes.push(n)),
            vendor,
        ) == vendor_total(k8s::summary_of(nodes), vendor),
{
    assert(k8s::summary_of(Seq::<NodeModel>::empty()).vendor_totals.dom() =~= Set::<Seq<char>>::empty());
    let more = nodes.push(n);
    assert(more.drop_last() =~= nodes);
    let a = k8s::vendor_sum(nodes, vendor);
    let b = k8s::vendor_count(n, vendor);
    let m: nat = 0x1_0000_0000_0000_0000;
    if k8s::how_many(nodes, k8s::with_vendor(vendor)) == 0 {
        lemma_vendor_absent(nodes, vendor);
    }
    assert((a % m + b) % m == (a + b) % m);
}

// ---------------------------------------------------------------------
// Probes
// ---------------------------------------------------------------------

/// Every node with a last probe has a row with its name, its rack and that
/// probe, and there are no other rows.
pub proof fn law_probe_rows(nodes: Seq<NodeModel>)
    ensures
        routes::rows_of(nodes).len() == nodes.filter(|n: NodeModel| n.last_probe is Some).len(),
        forall|i: int|
            0 <= i < routes::rows_of(nodes).len() ==> {
                let n = nodes.filter(|n: NodeModel| n.last_probe is Some)[i];
                &&& (#[trigger] routes::rows_of(nodes)[i]).node == n.name
                &&& routes::rows_of(nodes)[i].rack == n.rack
                &&& Some(routes::rows_of(nodes)[i].probe) == n.last_probe
            },
    decreases nodes.len(),
{
    let keep = |n: NodeModel| n.last_probe is Some;
    if nodes.len() == 0 {
        assert(nodes.filter(keep) =~= Seq::empty()) by {
            reveal(Seq::filter);
        }
    } else {
        let front = nodes.drop_last();
        let last = nodes.last();
        law_probe_rows(front);
        assert(nodes =~= front.push(last));
        sorting::lemma_filter_push(front, last, keep);
        let rows = routes::rows_of(nodes);
        assert forall|i: int| 0 <= i < rows.len() implies {
            let n = nodes.filter(keep)[i];
            &&& (#[trigger] rows[i]).node == n.name
            &&& rows[i].rack == n.rack
            &&& Some(rows[i].probe) == n.last_probe
        } by {
            if i < routes::rows_of(front).len() {
                assert(nodes.filter(keep)[i] == front.filter(keep)[i]);
                assert(rows[i] == routes::rows_of(front)[i]);
            }
        }
    }
}

/// In the list of probes times do not rise, and what has no time comes last.
pub proof fn law_probe_times_fall(rows: Seq<RowModel>, i: int, j: int)
    requires
        0 <= i < j < rows.len(),
    ensures
        ({
            let list = sorting::arranged(rows, routes::latest_first());
            &&& list[i].probe.at is None ==> list[j].probe.at is None
            &&& list[i].probe.at is Some && list[j].probe.at is Some ==> !text::text_lt(
                list[i].probe.at->0,
                list[j].probe.at->0,
            )
        }),
{
    routes::law_probes_latest_first(rows, i, j);
}

// ---------------------------------------------------------------------
// The fleet
// ---------------------------------------------------------------------

/// The answers stand in the order of the queries: how much memory is used,
/// how much there is, power, temperature and utilization.
pub proof fn law_fleet_queries()
    ensures
        FLEET_QUERIES@.len() == 6,
        FLEET_QUERIES@[0].0@ == "accel.memory.vram.used"@,
        FLEET_QUERIES@[0].1@ == "sum"@,
        FLEET_QUERIES@[1].0@ == "accel.memory.vram.total"@,
        FLEET_QUERIES@[1].1@ == "sum"@,
        FLEET_QUERIES@[2].0@ == "accel.memory.dedicated.total"@,
        FLEET_QUERIES@[2].1@ == "sum"@,
        FLEET_QUERIES@[3].0@ == "accel.power.usage"@,
        FLEET_QUERIES@[3].1@ == "sum"@,
        FLEET_QUERIES@[4].0@ == "accel.temperature"@,
        FLEET_QUERIES@[4].1@ == "max"@,
        FLEET_QUERIES@[5].0@ == "accel.utilization"@,
        FLEET_QUERIES@[5].1@ == "avg"@,
{
}

/// What the fleet says of a node is what each answer says of it.
pub proof fn law_fleet_reads_the_answers<N>(a: FleetAnswers<N>, node: Seq<char>)
    requires
        routes::tells_of(a.vram_used, node) || routes::tells_of(a.vram_total, node) || routes::tells_of(
            a.dedicated_total,
            node,
        ) || routes::tells_of(a.power, node) || routes::tells_of(a.temperature, node) || routes::tells_of(
            a.utilization,
            node,
        ),
    ensures
        routes::fleet_of(a).contains_key(node),
        routes::is_read_from(routes::fleet_of(a)[node].memory_used_bytes, a.vram_used, node),
        routes::is_read_from(routes::fleet_of(a)[node].power_watts, a.power, node),
        routes::is_read_from(routes::fleet_of(a)[node].temp_c, a.temperature, node),
        routes::is_read_from(routes::fleet_of(a)[node].utilization, a.utilization, node),
        routes::tells_of(a.vram_total, node) ==> routes::is_read_from(
            routes::fleet_of(a)[node].memory_total_bytes,
            a.vram_total,
            node,
        ),
        !routes::tells_of(a.vram_total, node) ==> routes::is_read_from(
            routes::fleet_of(a)[node].memory_total_bytes,
            a.dedicated_total,
            node,
        ),
{
}

/// The error of the fleet is that of the first query that failed.
pub proof fn law_fleet_tells_first_error<N>(a: FleetAnswers<N>)
    ensures
        routes::first_error(a) is None <==> a.vram_used is Ok && a.vram_total is Ok && a.dedicated_total is Ok
            && a.power is Ok && a.temperature is Ok && a.utilization is Ok,
        a.vram_used is Err ==> routes::first_error(a) == Some(
            a.vram_used->Err_0@,
        ),
        a.vram_used is Ok && a.vram_total is Err ==> routes::first_error(a) == Some(
            a.vram_total->Err_0@,
        ),
        a.vram_used is Ok && a.vram_total is Ok && a.dedicated_total is Err ==> routes::first_error(a) == Some(
            a.dedicated_total->Err_0@,
        ),
        a.vram_used is Ok && a.vram_total is Ok && a.dedicated_total is Ok && a.power is Err ==> routes::first_error(a) == Some(
            a.power->Err_0@,
        ),
        a.vram_used is Ok && a.vram_total is Ok && a.dedicated_total is Ok && a.power is Ok && a.temperature is Err ==> routes::first_error(a) == Some(
            a.temperature->Err_0@,
        ),
        a.vram_used is Ok && a.vram_total is Ok && a.dedicated_total is Ok && a.power is Ok && a.temperature is Ok && a.utilization is Err ==> routes::first_error(a) == Some(
            a.utilization->Err_0@,
        ),
{
}

// ---------------------------------------------------------------------
// The telemetry store
// ---------------------------------------------------------------------

/// The text is the numeral of the number.
pub open spec fn is_numeral_of(s: Seq<char>, n: int) -> bool {
    if n < 0 {
        s.len() > 0 && s[0] == '-' && number::unsigned_of(s.drop_first(), 10) == Some((-n) as nat)
    } else {
        number::unsigned_of(s, 10) == Some(n as nat)
    }
}

proof fn lemma_signed(n: int)
    ensures
        is_numeral_of(number::signed_decimal(n), n),
{
    reveal_strlit("-");
    if n < 0 {
        number::law_decimal_reads_back((-n) as nat, (-n) as nat);
        assert(number::signed_decimal(n).drop_first() =~= number::decimal((-n) as nat));
    } else {
        number::law_decimal_reads_back(n as nat, n as nat);
    }
}

proof fn lemma_with_pair(pairs: mutel::Pairs, key: Seq<char>, value: Option<Seq<char>>, x: (Seq<char>, Seq<char>))
    ensures
        mutel::with_pair(pairs, key, value).contains(x) <==> pairs.contains(x) || (x.0 == key && value == Some(
            x.1,
        )),
{
    let more = mutel::with_pair(pairs, key, value);
    if value is Some {
        if pairs.contains(x) {
            let i = choose|i: int| 0 <= i < pairs.len() && pairs[i] == x;
            assert(more[i] == x);
        }
        if x.0 == key && value == Some(x.1) {
            assert(more[pairs.len() as int] == x);
        }
        if more.contains(x) {
            let i = choose|i: int| 0 <= i < more.len() && more[i] == x;
            if i < pairs.len() {
                assert(pairs[i] == x);
            }
        }
    }
}

/// A query hands on each parameter that is set, under its own name, and
/// nothing else.
pub proof fn law_query_hands_on_parameters(p: MetricQueryParams, key: Seq<char>, value: Seq<char>)
    ensures
        mutel::pairs_of(p).contains((key, value)) ==> {
            ||| key == "filter"@ && text::opt_text(p.filter) == Some(value)
            ||| key == "group_by"@ && text::opt_text(p.group_by) == Some(value)
            ||| key == "agg"@ && text::opt_text(p.agg) == Some(value)
            ||| key == "start"@ && p.start is Some && is_numeral_of(value, p.start->0 as int)
            ||| key == "end"@ && p.end is Some && is_numeral_of(value, p.end->0 as int)
            ||| key == "max_points"@ && p.max_points is Some && is_numeral_of(value, p.max_points->0 as int)
        },
        p.filter matches Some(s) ==> mutel::pairs_of(p).contains(("filter"@, s@)),
        p.group_by matches Some(s) ==> mutel::pairs_of(p).contains(("group_by"@, s@)),
        p.agg matches Some(s) ==> mutel::pairs_of(p).contains(("agg"@, s@)),
        p.start matches Some(n) ==> mutel::pairs_of(p).contains(("start"@, number::signed_decimal(n as int))),
        p.end matches Some(n) ==> mutel::pairs_of(p).contains(("end"@, number::signed_decimal(n as int))),
        p.max_points matches Some(n) ==> mutel::pairs_of(p).contains(("max_points"@, number::decimal(n as nat))),
{
    lemma_pair_in(p, (key, value));
    if let Some(s) = p.filter {
        lemma_pair_in(p, ("filter"@, s@));
    }
    if let Some(s) = p.group_by {
        lemma_pair_in(p, ("group_by"@, s@));
    }
    if let Some(s) = p.agg {
        lemma_pair_in(p, ("agg"@, s@));
    }
    if let Some(n) = p.start {
        lemma_pair_in(p, ("start"@, number::signed_decimal(n as int)));
        lemma_signed(n as int);
    }
    if let Some(n) = p.end {
        lemma_pair_in(p, ("end"@, number::signed_decimal(n as int)));
        lemma_signed(n as int);
    }
    if let Some(n) = p.max_points {
        lemma_pair_in(p, ("max_points"@, number::decimal(n as nat)));
        number::law_decimal_reads_back(n as nat, n as nat);
    }
}

proof fn lemma_pair_in(p: MetricQueryParams, x: (Seq<char>, Seq<char>))
    ensures
        mutel::pairs_of(p).contains(x) <==> {
            ||| x.0 == "filter"@ && text::opt_text(p.filter) == Some(x.1)
            ||| x.0 == "group_by"@ && text::opt_text(p.group_by) == Some(x.1)
            ||| x.0 == "agg"@ && text::opt_text(p.agg) == Some(x.1)
            ||| x.0 == "start"@ && p.start is Some && x.1 == number::signed_decimal(p.start->0 as int)
            ||| x.0 == "end"@ && p.end is Some && x.1 == number::signed_decimal(p.end->0 as int)
            ||| x.0 == "max_points"@ && p.max_points is Some && x.1 == number::decimal(p.max_points->0 as nat)
        },
{
    let max = match p.max_points {
        Some(n) => Some(number::decimal(n as nat)),
        None => None,
    };
    let p0 = Seq::<(Seq<char>, Seq<char>)>::empty();
    let p1 = mutel::with_pair(p0, "filter"@, text::opt_text(p.filter));
    let p2 = mutel::with_pair(p1, "group_by"@, text::opt_text(p.group_by));
    let p3 = mutel::with_pair(p2, "agg"@, text::opt_text(p.agg));
    let p4 = mutel::with_pair(p3, "start"@, mutel::opt_numeral(p.start));
    let p5 = mutel::with_pair(p4, "end"@, mutel::opt_numeral(p.end));
    lemma_with_pair(p0, "filter"@, text::opt_text(p.filter), x);
    lemma_with_pair(p1, "group_by"@, text::opt_text(p.group_by), x);
    lemma_with_pair(p2, "agg"@, text::opt_text(p.agg), x);
    lemma_with_pair(p3, "start"@, mutel::opt_numeral(p.start), x);
    lemma_with_pair(p4, "end"@, mutel::opt_numeral(p.end), x);
    lemma_with_pair(p5, "max_points"@, max, x);
}

/// A window that ends at `now` is so many seconds long, as far as the number
/// goes.
pub proof fn law_window_length(now: i64, window_secs: u64)
    requires
        window_secs <= i64::MAX,
    ensures
        now - window_secs >= i64::MIN ==> mutel::window_start(now, window_secs) + window_secs == now,
        now - window_secs < i64::MIN ==> mutel::window_start(now, window_secs) == i64::MIN,
{
}

/// The base address is the given one without slashes at its end.
pub proof fn law_base_address(address: Seq<char>)
    ensures
        mutel::base_of(address).len() <= address.len(),
        mutel::base_of(address) == address.take(mutel::base_of(address).len() as int),
        mutel::base_of(address).len() > 0 ==> mutel::base_of(address).last() != '/',
        forall|i: int| mutel::base_of(address).len() <= i < address.len() ==> #[trigger] address[i] == '/',
    decreases address.len(),
{
    if address.len() > 0 && address.last() == '/' {
        let front = address.drop_last();
        law_base_address(front);
        let b = mutel::base_of(address);
        assert(CharClass::One('/').has(address.last()));
        assert(b == mutel::base_of(front));
        assert(front.take(b.len() as int) =~= address.take(b.len() as int));
        assert forall|i: int| b.len() <= i < address.len() implies #[trigger] address[i] == '/' by {
            if i < front.len() {
                assert(front[i] == address[i]);
            }
        }
    } else {
        assert(address.take(address.len() as int) =~= address);
        if address.len() > 0 {
            assert(!CharClass::One('/').has(address.last()));
        }
    }
}

/// The first member of the object with the name is `m`.
pub open spec fn has_member<N>(j: Json<N>, name: Seq<char>, m: Json<N>) -> bool {
    j matches Json::Object(v) && exists|i: int|
        0 <= i < v@.len() && (#[trigger] v@[i]).0@ == name && v@[i].1 == m && forall|k: int|
            0 <= k < i ==> (#[trigger] v@[k]).0@ != name
}

/// The group of points is that of the node, and its last point has the
/// value.
pub open spec fn tells_value<N>(g: Json<N>, node: Seq<char>, n: N) -> bool {
    exists|key: Json<N>, name: String, points: Vec<Json<N>>, point: Vec<Json<N>>|
        {
            &&& #[trigger] has_member(g, "key"@, key)
            &&& #[trigger] has_member(key, "r:k8s.node.name"@, Json::Text(name))
            &&& name@ == node
            &&& node.len() > 0
            &&& #[trigger] has_member(g, "points"@, Json::List(points))
            &&& points@.len() > 0
            &&& points@[points@.len() - 1] == Json::List(point)
            &&& (#[trigger] point@.len()) >= 2
            &&& point@[1] == Json::Number(n)
        }
}

proof fn lemma_member_from<N>(v: Seq<(String, Json<N>)>, name: Seq<char>, at: int) -> (i: int)
    requires
        0 <= at <= v.len(),
    ensures
        at <= i <= v.len(),
        forall|k: int| at <= k < i ==> (#[trigger] v[k]).0@ != name,
        i < v.len() ==> v[i].0@ == name && mutel::member_from(v, name, at) == Some(v[i].1),
        i == v.len() ==> mutel::member_from(v, name, at) is None,
    decreases v.len() - at,
{
    if at < v.len() && v[at].0@ != name {
        lemma_member_from(v, name, at + 1)
    } else {
        at
    }
}

proof fn lemma_member<N>(j: Json<N>, name: Seq<char>)
    ensures
        forall|m: Json<N>| #[trigger] has_member(j, name, m) <==> mutel::member_of(j, name) == Some(m),
{
    match j {
        Json::Object(v) => {
            let i = lemma_member_from(v@, name, 0);
            assert forall|m: Json<N>| #[trigger] has_member(j, name, m) <==> mutel::member_of(j, name) == Some(m) by {
                if has_member(j, name, m) {
                    let k = choose|k: int|
                        0 <= k < v@.len() && (#[trigger] v@[k]).0@ == name && v@[k].1 == m && forall|h: int|
                            0 <= h < k ==> (#[trigger] v@[h]).0@ != name;
                    if k < i {
                        assert(v@[k].0@ != name);
                    }
                    if i < k {
                        assert(v@[i].0@ != name);
                    }
                }
                if mutel::member_of(j, name) == Some(m) {
                    assert(v@[i].0@ == name);
                }
            }
        },
        _ => {},
    }
}

proof fn lemma_group<N>(g: Json<N>, node: Seq<char>, n: N)
    ensures
        mutel::group_node(g) == Some(node) && mutel::group_value(g) == Some(n) <==> tells_value(g, node, n),
{
    lemma_member(g, "key"@);
    lemma_member(g, "points"@);
    if mutel::group_node(g) == Some(node) && mutel::group_value(g) == Some(n) {
        let key = mutel::member_of(g, "key"@)->0;
        lemma_member(key, "r:k8s.node.name"@);
        let name = mutel::member_of(key, "r:k8s.node.name"@)->0->Text_0;
        let points = mutel::member_of(g, "points"@)->0->List_0;
        let point = points@.last()->List_0;
        assert(has_member(g, "key"@, key));
        assert(has_member(key, "r:k8s.node.name"@, Json::Text(name)));
        assert(has_member(g, "points"@, Json::List(points)));
        assert(point@.len() >= 2);
    }
    if tells_value(g, node, n) {
        let (key, name, points, point) = choose|
            key: Json<N>,
            name: String,
            points: Vec<Json<N>>,
            point: Vec<Json<N>>,
        |
            {
                &&& #[trigger] has_member(g, "key"@, key)
                &&& #[trigger] has_member(key, "r:k8s.node.name"@, Json::Text(name))
                &&& name@ == node
                &&& node.len() > 0
                &&& #[trigger] has_member(g, "points"@, Json::List(points))
                &&& points@.len() > 0
                &&& points@[points@.len() - 1] == Json::List(point)
                &&& (#[trigger] point@.len()) >= 2
                &&& point@[1] == Json::Number(n)
            };
        lemma_member(key, "r:k8s.node.name"@);
    }
}

/// A node has the value that the last group tells that tells one of it, and
/// none where no group does.
pub proof fn law_latest_value_of_a_node<N>(groups: Seq<Json<N>>, node: Seq<char>)
    ensures
        ({
            let values = mutel::values_of(groups);
            &&& values.contains_key(node) <==> exists|i: int, n: N|
                0 <= i < groups.len() && #[trigger] tells_value(groups[i], node, n)
            &&& values.contains_key(node) ==> exists|i: int|
                0 <= i < groups.len() && #[trigger] tells_value(groups[i], node, values[node]) && forall|
                    k: int,
                    m: N,
                |
                    i < k < groups.len() ==> !#[trigger] tells_value(groups[k], node, m)
        }),
    decreases groups.len(),
{
    let values = mutel::values_of(groups);
    if groups.len() > 0 {
        let front = groups.drop_last();
        let g = groups.last();
        let last = groups.len() - 1;
        law_latest_value_of_a_node(front, node);
        assert forall|m: N| #[trigger] tells_value(g, node, m) <==> mutel::group_node(g) == Some(node)
            && mutel::group_value(g) == Some(m) by {
            lemma_group(g, node, m);
        }
        if mutel::group_node(g) == Some(node) && mutel::group_value(g) is Some {
            let n = mutel::group_value(g)->0;
            assert(tells_value(groups[last], node, n));
            assert(values[node] == n);
        } else {
            assert(values.contains_key(node) == mutel::values_of(front).contains_key(node));
            if values.contains_key(node) {
                assert(values[node] == mutel::values_of(front)[node]);
                let i = choose|i: int|
                    0 <= i < front.len() && #[trigger] tells_value(front[i], node, values[node]) && forall|
                        k: int,
                        m: N,
                    |
                        i < k < front.len() ==> !#[trigger] tells_value(front[k], node, m);
                assert(tells_value(groups[i], node, values[node]));
                assert forall|k: int, m: N| i < k < groups.len() implies !#[trigger] tells_value(
                    groups[k],
                    node,
                    m,
                ) by {
                    if k < last {
                        assert(front[k] == groups[k]);
                    }
                }
            }
            if exists|i: int, n: N| 0 <= i < groups.len() && #[trigger] tells_value(groups[i], node, n) {
                let (i, n) = choose|i: int, n: N|
                    0 <= i < groups.len() && #[trigger] tells_value(groups[i], node, n);
                assert(i < last);
                assert(tells_value(front[i], node, n));
            }
        }
    }
}

/// The groups of an answer are those in its list `groups`.
pub proof fn law_groups_of_an_answer<N>(answer: Json<N>, groups: Vec<Json<N>>)
    requires
        has_member(answer, "groups"@, Json::List(groups)),
    ensures
        mutel::groups_of(answer) == groups@,
{
    lemma_member(answer, "groups"@);
}

// ---------------------------------------------------------------------
// Files
// ---------------------------------------------------------------------

proof fn lemma_extension(stem: Seq<char>, ext: Seq<char>)
    requires
        !ext.contains('.'),
    ensures
        scan::after_last(stem + seq!['.'] + ext, '.') == Some(ext),
{
    let s = stem + seq!['.'] + ext;
    scan::lemma_split_joined(stem, ext, '.');
    let k = CharClass::One('.');
    scan::lemma_find(ext, k);
    if scan::find(ext, k) < ext.len() {
        assert(ext.contains(ext[scan::find(ext, k)]));
    }
    assert(scan::split_of(ext, '.') =~= seq![ext]);
}

/// The type of a file goes by its ending.
pub proof fn law_types_of_files(stem: Seq<char>)
    ensures
        assets::mime_of(stem + seq!['.'] + "html"@) == "text/html; charset=utf-8"@,
        assets::mime_of(stem + seq!['.'] + "css"@) == "text/css; charset=utf-8"@,
        assets::mime_of(stem + seq!['.'] + "js"@) == "application/javascript; charset=utf-8"@,
        assets::mime_of(stem + seq!['.'] + "mjs"@) == "application/javascript; charset=utf-8"@,
        assets::mime_of(stem + seq!['.'] + "json"@) == "application/json; charset=utf-8"@,
        assets::mime_of(stem + seq!['.'] + "svg"@) == "image/svg+xml"@,
        assets::mime_of(stem + seq!['.'] + "png"@) == "image/png"@,
        assets::mime_of(stem + seq!['.'] + "ico"@) == "image/x-icon"@,
        assets::mime_of(stem + seq!['.'] + "woff2"@) == "font/woff2"@,
{
    reveal_strlit("html");
    reveal_strlit("css");
    reveal_strlit("js");
    reveal_strlit("mjs");
    reveal_strlit("json");
    reveal_strlit("svg");
    reveal_strlit("png");
    reveal_strlit("ico");
    reveal_strlit("woff2");
    assert("html"@[0] == 'h' && "css"@[0] == 'c' && "js"@[0] == 'j' && "mjs"@[0] == 'm' && "json"@[0] == 'j'
        && "svg"@[0] == 's' && "png"@[0] == 'p' && "ico"@[0] == 'i' && "woff2"@[0] == 'w');
    assert("js"@.len() == 2 && "json"@.len() == 4);
    lemma_extension(stem, "html"@);
    lemma_extension(stem, "css"@);
    lemma_extension(stem, "js"@);
    lemma_extension(stem, "mjs"@);
    lemma_extension(stem, "json"@);
    lemma_extension(stem, "svg"@);
    lemma_extension(stem, "png"@);
    lemma_extension(stem, "ico"@);
    lemma_extension(stem, "woff2"@);
}

/// One slash in front of a path makes no difference, and no path is the
/// page.
pub proof fn law_paths_of_files(path: Seq<char>)
    ensures
        assets::path_of(Seq::<char>::empty()) == "index.html"@,
        assets::path_of(seq!['/']) == "index.html"@,
        path.len() > 0 && path[0] != '/' ==> assets::path_of(path) == path,
        path.len() > 0 ==> assets::path_of(seq!['/'] + path) == path,
{
    reveal_strlit("/");
    assert("/"@ =~= seq!['/']);
    let slash = seq!['/'];
    assert(slash.take(1) =~= slash);
    assert(slash.skip(1).len() == 0);
    if path.len() > 0 {
        assert((slash + path).take(1) =~= slash);
        assert((slash + path).skip(1) =~= path);
        if path[0] != '/' {
            assert(path.take(1)[0] == path[0]);
        }
    }
}

/// A file that is there is answered with what it holds, and one that is not
/// there is not.
pub proof fn law_files_are_answered(dir: Dir<'static>, path: Seq<char>, r: Option<Asset>)
    requires
        assets::answers(dir, path, r),
    ensures
        r is Some <==> assets::dir_files(dir).contains_key(path),
        r matches Some(a) ==> a.contents@ == assets::dir_files(dir)[path] && a.mime@ == assets::mime_of(path)
            && a.cache_control@ == "public, max-age=60, must-revalidate"@,
{
}

// ---------------------------------------------------------------------
// Models
// ---------------------------------------------------------------------

/// The model of a probe says of each thing what the probe says of it.
pub proof fn law_model_of_a_probe(p: k8s::ProbeRecord)
    ensures
        p@.at == text::opt_text(p.at),
        p@.bandwidth_gbps == text::opt_text(p.bandwidth_gbps),
        p@.partner == text::opt_text(p.partner),
        p@.verdict == text::opt_text(p.verdict),
{
}

/// The model of a condition says of each thing what the condition says of it.
pub proof fn law_model_of_a_condition(c: k8s::NodeCondition)
    ensures
        c@.kind == c.kind@,
        c@.status == c.status@,
        c@.reason == text::opt_text(c.reason),
{
}

/// The model of a node says of each thing what the node says of it.
pub proof fn law_model_of_a_node(n: k8s::NodeView, key: Seq<char>)
    ensures
        n@.name == n.name@,
        n@.rack == text::opt_text(n.rack),
        n@.block == text::opt_text(n.block),
        n@.vendor_counts.contains_key(key) == n.vendor_counts@.contains_key(key),
        n.vendor_counts@.contains_key(key) ==> n@.vendor_counts[key] == n.vendor_counts@[key],
        n@.model_counts.contains_key(key) == n.model_counts@.contains_key(key),
        n.model_counts@.contains_key(key) ==> n@.model_counts[key] == n.model_counts@[key],
        n.total_accelerators matches Some(k) ==> n@.total_accelerators == Some(k as nat),
        n.total_accelerators is None ==> n@.total_accelerators is None,
        n@.fabric_domains == n.fabric_domains,
        n.last_probe matches Some(p) ==> n@.last_probe == Some(p@),
        n.last_probe is None ==> n@.last_probe is None,
        n@.conditions.len() == n.conditions@.len(),
        forall|i: int| 0 <= i < n.conditions@.len() ==> #[trigger] n@.conditions[i] == n.conditions@[i]@,
        n@.ready == n.ready,
        n@.schedulable == n.schedulable,
        n@.kubelet_version == text::opt_text(n.kubelet_version),
        n@.topo_labels.contains_key(key) == n.topo_labels@.contains_key(key),
        n.topo_labels@.contains_key(key) ==> n@.topo_labels[key] == n.topo_labels@[key]@,
{
}

/// The model of a summary says of each thing what the summary says of it.
pub proof fn law_model_of_a_summary(s: k8s::ClusterSummary, key: Seq<char>)
    ensures
        s@.nodes_total == s.nodes_total,
        s@.nodes_ready == s.nodes_ready,
        s@.racks.contains_key(key) == s.racks@.contains_key(key),
        s.racks@.contains_key(key) ==> s@.racks[key].healthy_probes == s.racks@[key].healthy_probes,
        s.racks@.contains_key(key) ==> s@.racks[key].failed_probes == s.racks@[key].failed_probes,
        s.racks@.contains_key(key) ==> s@.racks[key].nodes == text::texts(s.racks@[key].nodes@),
        s@.probe_verdicts.contains_key(key) == s.probe_verdicts@.contains_key(key),
        s.probe_verdicts@.contains_key(key) ==> s@.probe_verdicts[key] == s.probe_verdicts@[key],
        s@.vendor_totals.contains_key(key) == s.vendor_totals@.contains_key(key),
        s.vendor_totals@.contains_key(key) ==> s@.vendor_totals[key] == s.vendor_totals@[key],
{
}

/// The model of a row says of each thing what the row says of it.
pub proof fn law_model_of_a_row(r: routes::ProbeRow)
    ensures
        r@.node == r.node@,
        r@.rack == text::opt_text(r.rack),
        r@.probe.at == text::opt_text(r.at),
        r@.probe.bandwidth_gbps == text::opt_text(r.bandwidth_gbps),
        r@.probe.partner == text::opt_text(r.partner),
        r@.probe.verdict == text::opt_text(r.verdict),
{
}

/// A file that is there is answered with its contents and its type.
pub proof fn law_file_keeps_its_contents(path: Seq<char>, contents: Option<Seq<u8>>, r: Option<Asset>)
    requires
        assets::has_contents(path, contents, r),
    ensures
        contents is Some <==> r is Some,
        r matches Some(a) ==> contents == Some(a.contents@) && a.mime@ == assets::mime_of(path)
            && a.cache_control@ == "public, max-age=60, must-revalidate"@,
{
}


// ---------------------------------------------------------------------
// Addresses
// ---------------------------------------------------------------------

/// The byte is that of a letter, of a digit, or of `-`, `_`, `.` or `~`.
pub open spec fn is_plain(b: u8) -> bool {
    ||| 'a' as u8 <= b <= 'z' as u8
    ||| 'A' as u8 <= b <= 'Z' as u8
    ||| '0' as u8 <= b <= '9' as u8
    ||| b == '-' as u8
    ||| b == '_' as u8
    ||| b == '.' as u8
    ||| b == '~' as u8
}

/// A digit, or a capital letter from `A` to `F`, with the given value.
pub open spec fn is_capital_hex(c: char, value: nat) -> bool {
    ('0' <= c <= '9' || 'A' <= c <= 'F') && number::digit_of(c, 16) == Some(value)
}

/// In an address a plain byte stands for itself, and any other as a percent
/// sign and two capital hexadecimal digits.
pub proof fn law_bytes_in_an_address(bytes: Seq<u8>, b: u8)
    ensures
        mutel::encoded(Seq::empty()).len() == 0,
        ({
            let before = mutel::encoded(bytes);
            let after = mutel::encoded(bytes.push(b));
            let n = before.len() as int;
            &&& forall|i: int| 0 <= i < n ==> #[trigger] after[i] == before[i]
            &&& is_plain(b) ==> after.len() == n + 1 && after[n] == b as char
            &&& !is_plain(b) ==> {
                &&& after.len() == n + 3
                &&& after[n] == '%'
                &&& is_capital_hex(after[n + 1], (b / 16) as nat)
                &&& is_capital_hex(after[n + 2], (b % 16) as nat)
            }
        }),
{
    assert(bytes.push(b).drop_last() =~= bytes);
    assert(bytes.push(b).last() == b);
    assert(is_plain(b) == mutel::is_unreserved(b));
}


} // verus!
