//! Keeping a node's labels and annotations as the daemon wants them.
//!
//! The daemon owns the keys under a few prefixes. A JSON merge patch (RFC
//! 7396) sets the ones it wants and takes away the ones it no longer does,
//! so that a node converges as its hardware changes; all other keys are left
//! alone.

use crate::json;
use crate::preflight::NodeReadiness;
use crate::scan;
use crate::sensors::Accelerator;
use crate::telemetry::preflight;
use crate::textmap;
use crate::textmap::TextMap;
use crate::topology::labels;
use crate::topology::labels::LabelSet;
use crate::topology::rdma::RdmaDevice;
use crate::topology::NodeTopology;
use vstd::prelude::*;

verus! {

// ---------------------------------------------------------------------
// The patch
// ---------------------------------------------------------------------

/// The daemon owns the key.
pub open spec fn is_managed_key(key: Seq<char>) -> bool {
    scan::has_prefix(key, "accel.lunnova.dev/"@) || scan::has_prefix(key, "accel-topo.lunnova.dev/"@)
        || scan::has_prefix(key, "accel-ready.lunnova.dev/"@) || scan::has_prefix(key, "accel-net.lunnova.dev/"@)
}

/// Whether the daemon owns the key.
pub fn is_managed(key: &str) -> (r: bool)
    ensures
        r == is_managed_key(key@),
{
    scan::starts_with(key, "accel.lunnova.dev/") || scan::starts_with(key, "accel-topo.lunnova.dev/")
        || scan::starts_with(key, "accel-ready.lunnova.dev/") || scan::starts_with(key, "accel-net.lunnova.dev/")
}

/// One section of the merge patch: every desired key with its value, and
/// null for owned keys that are there and not desired.
pub open spec fn section(
    current: Map<Seq<char>, Seq<char>>,
    desired: Map<Seq<char>, Seq<char>>,
) -> Map<Seq<char>, Option<Seq<char>>> {
    Map::new(
        |k: Seq<char>| desired.contains_key(k) || (current.contains_key(k) && is_managed_key(k)),
        |k: Seq<char>|
            if desired.contains_key(k) {
                Some(desired[k])
            } else {
                None
            },
    )
}

/// What a merge patch makes of a map of texts (RFC 7396): members of the
/// patch replace, nulls remove, the rest stays.
pub open spec fn patched(
    current: Map<Seq<char>, Seq<char>>,
    patch: Map<Seq<char>, Option<Seq<char>>>,
) -> Map<Seq<char>, Seq<char>> {
    Map::new(
        |k: Seq<char>|
            if patch.contains_key(k) {
                patch[k] is Some
            } else {
                current.contains_key(k)
            },
        |k: Seq<char>|
            if patch.contains_key(k) {
                patch[k]->0
            } else {
                current[k]
            },
    )
}

/// The texts of an optional map.
pub open spec fn opt_values(m: Option<&TextMap<String>>) -> Map<Seq<char>, Seq<char>> {
    match m {
        Some(t) => textmap::text_values(*t),
        None => Map::empty(),
    }
}

/// The entries with index below `n` that are owned and not desired.
spec fn stale(s: Seq<(String, String)>, desired: Map<Seq<char>, Seq<char>>, n: int) -> Map<
    Seq<char>,
    Option<Seq<char>>,
> {
    Map::new(
        |k: Seq<char>|
            is_managed_key(k) && !desired.contains_key(k) && exists|i: int| i < n && textmap::key_at(s, k, i),
        |k: Seq<char>| None,
    )
}

/// The entries with index below `n` over `base`.
spec fn overlaid(base: Map<Seq<char>, Option<Seq<char>>>, s: Seq<(String, String)>, n: int) -> Map<
    Seq<char>,
    Option<Seq<char>>,
>
    decreases n,
{
    if n <= 0 {
        base
    } else {
        overlaid(base, s, n - 1).insert(s[n - 1].0@, Some(s[n - 1].1@))
    }
}

proof fn lemma_overlaid(base: Map<Seq<char>, Option<Seq<char>>>, s: Seq<(String, String)>, n: int)
    requires
        textmap::increasing(s),
        0 <= n <= s.len(),
    ensures
        forall|k: Seq<char>| #[trigger]
            overlaid(base, s, n).contains_key(k) <==> base.contains_key(k) || exists|i: int|
                i < n && textmap::key_at(s, k, i),
        forall|i: int| 0 <= i < n ==> overlaid(base, s, n)[(#[trigger] s[i]).0@] == Some(s[i].1@),
        forall|k: Seq<char>|
            base.contains_key(k) && (forall|i: int| i < n ==> !textmap::key_at(s, k, i)) ==> #[trigger] overlaid(
                base,
                s,
                n,
            )[k] == base[k],
    decreases n,
{
    if n > 0 {
        lemma_overlaid(base, s, n - 1);
        let last = s[n - 1].0@;
        assert(textmap::key_at(s, last, n - 1));
        assert forall|k: Seq<char>| #[trigger]
            overlaid(base, s, n).contains_key(k) <==> base.contains_key(k) || exists|i: int|
                i < n && textmap::key_at(s, k, i) by {
            if exists|i: int| i < n && textmap::key_at(s, k, i) {
                let i = choose|i: int| i < n && textmap::key_at(s, k, i);
                if i < n - 1 {
                    assert(textmap::key_at(s, k, i));
                }
            }
        }
        assert forall|i: int| 0 <= i < n implies overlaid(base, s, n)[(#[trigger] s[i]).0@] == Some(s[i].1@) by {
            if s[i].0@ == last {
                textmap::lemma_key_once(s, i, n - 1);
            }
        }
    }
}

/// One section of the merge patch.
pub fn merged_section(
    current: Option<&TextMap<String>>,
    desired: &TextMap<String>,
) -> (r: serde_json::Map<String, serde_json::Value>)
    ensures
        json::json_members(r) == section(opt_values(current), textmap::text_values(*desired)),
{
    let mut out = json::new_object();
    let ghost want = textmap::text_values(*desired);
    let ghost mut nulls: Map<Seq<char>, Option<Seq<char>>> = Map::empty();
    match current {
        Some(cur) => {
            let entries = cur.entries();
            let ghost s = entries@;
            let mut i: usize = 0;
            assert(json::json_members(out) =~= stale(s, want, 0));
            while i < entries.len()
                invariant
                    i <= entries@.len(),
                    s == entries@,
                    want == textmap::text_values(*desired),
                    json::json_members(out) == stale(s, want, i as int),
                decreases entries@.len() - i,
            {
                let key = entries[i].0.as_str();
                let ghost before = json::json_members(out);
                assert(textmap::key_at(s, key@, i as int));
                assert(desired@.contains_key(key@) == want.contains_key(key@));
                if is_managed(key) && !desired.contains_key(key) {
                    json::set_member(&mut out, entries[i].0.clone(), None);
                    assert(stale(s, want, i + 1) =~= before.insert(key@, None)) by {
                        assert forall|k: Seq<char>| stale(s, want, i + 1).contains_key(k) == before.insert(
                            key@,
                            None,
                        ).contains_key(k) by {
                            lemma_one_more(s, k, i as int);
                        }
                    }
                } else {
                    assert(stale(s, want, i + 1) =~= before) by {
                        assert forall|k: Seq<char>| stale(s, want, i + 1).contains_key(k) == before.contains_key(
                            k,
                        ) by {
                            lemma_one_more(s, k, i as int);
                        }
                    }
                }
                i = i + 1;
            }
            proof {
                nulls = json::json_members(out);
                assert forall|k: Seq<char>| #[trigger] nulls.contains_key(k) <==> is_managed_key(k)
                    && !want.contains_key(k) && opt_values(current).contains_key(k) by {
                    if textmap::map_of(s).contains_key(k) {
                        let j = choose|j: int| textmap::key_at(s, k, j);
                        assert(j < s.len() && textmap::key_at(s, k, j));
                    }
                }
            }
        },
        None => {
            proof {
                nulls = json::json_members(out);
            }
        },
    }
    let wanted = desired.entries();
    let ghost t = wanted@;
    let mut i: usize = 0;
    while i < wanted.len()
        invariant
            i <= wanted@.len(),
            t == wanted@,
            json::json_members(out) == overlaid(nulls, t, i as int),
        decreases wanted@.len() - i,
    {
        json::set_member(&mut out, wanted[i].0.clone(), Some(wanted[i].1.clone()));
        i = i + 1;
    }
    proof {
        let n = t.len() as int;
        lemma_overlaid(nulls, t, n);
        let want_section = section(opt_values(current), want);
        let got = overlaid(nulls, t, n);
        assert forall|k: Seq<char>| want.contains_key(k) <==> exists|i: int| i < n && textmap::key_at(t, k, i) by {
            if textmap::map_of(t).contains_key(k) {
                let j = choose|j: int| textmap::key_at(t, k, j);
                assert(j < n && textmap::key_at(t, k, j));
            }
        }
        assert forall|k: Seq<char>| got.contains_key(k) implies got[k] == want_section[k] by {
            if want.contains_key(k) {
                let j = choose|j: int| textmap::key_at(t, k, j);
                textmap::lemma_map_at(t, j);
                assert(got[t[j].0@] == Some(t[j].1@));
            }
        }
        assert(got =~= want_section);
    }
    out
}

proof fn lemma_one_more(s: Seq<(String, String)>, k: Seq<char>, n: int)
    requires
        0 <= n < s.len(),
    ensures
        (exists|i: int| i < n + 1 && textmap::key_at(s, k, i)) <==> (exists|i: int| i < n && textmap::key_at(
            s,
            k,
            i,
        )) || s[n].0@ == k,
{
    if exists|i: int| i < n + 1 && textmap::key_at(s, k, i) {
        let i = choose|i: int| i < n + 1 && textmap::key_at(s, k, i);
        if i < n {
            assert(i < n && textmap::key_at(s, k, i));
        }
    }
    if exists|i: int| i < n && textmap::key_at(s, k, i) {
        let i = choose|i: int| i < n && textmap::key_at(s, k, i);
        assert(i < n + 1 && textmap::key_at(s, k, i));
    }
    if s[n].0@ == k {
        assert(n < n + 1 && textmap::key_at(s, k, n));
    }
}

/// The two sections under `metadata` of a merge patch.
pub struct MergePatch {
    pub labels: serde_json::Map<String, serde_json::Value>,
    pub annotations: serde_json::Map<String, serde_json::Value>,
}

/// The merge patch that makes a node with the given labels and annotations
/// carry what is desired.
pub fn build_merge_patch(
    current_labels: Option<&TextMap<String>>,
    current_annotations: Option<&TextMap<String>>,
    desired: &LabelSet,
) -> (r: MergePatch)
    ensures
        json::json_members(r.labels) == section(opt_values(current_labels), textmap::text_values(desired.labels)),
        json::json_members(r.annotations) == section(
            opt_values(current_annotations),
            textmap::text_values(desired.annotations),
        ),
{
    MergePatch {
        labels: merged_section(current_labels, &desired.labels),
        annotations: merged_section(current_annotations, &desired.annotations),
    }
}

// ---------------------------------------------------------------------
// What the patch does
// ---------------------------------------------------------------------

/// After the patch the node carries every desired key with its value, no
/// other owned key, and all that is not owned and not desired as before.
pub proof fn law_patch_converges(
    current: Map<Seq<char>, Seq<char>>,
    desired: Map<Seq<char>, Seq<char>>,
    key: Seq<char>,
)
    ensures
        ({
            let after = patched(current, section(current, desired));
            &&& desired.contains_key(key) ==> after.contains_key(key) && after[key] == desired[key]
            &&& is_managed_key(key) && !desired.contains_key(key) ==> !after.contains_key(key)
            &&& !is_managed_key(key) && !desired.contains_key(key) ==> after.contains_key(key)
                == current.contains_key(key) && (current.contains_key(key) ==> after[key] == current[key])
        }),
{
}

/// Patching again changes nothing.
pub proof fn law_patch_idempotent(current: Map<Seq<char>, Seq<char>>, desired: Map<Seq<char>, Seq<char>>)
    ensures
        ({
            let after = patched(current, section(current, desired));
            patched(after, section(after, desired)) == after
        }),
{
    let after = patched(current, section(current, desired));
    assert(patched(after, section(after, desired)) =~= after);
}

/// Once a node carries what is desired, the patch removes nothing.
pub proof fn law_settled_patch_has_no_nulls(
    current: Map<Seq<char>, Seq<char>>,
    desired: Map<Seq<char>, Seq<char>>,
    key: Seq<char>,
)
    requires
        section(patched(current, section(current, desired)), desired).contains_key(key),
    ensures
        section(patched(current, section(current, desired)), desired)[key] is Some,
{
}

/// A count label is owned if its prefix is.
proof fn lemma_count_label_owned(prefix: Seq<char>, suffix: Seq<char>, c: Map<Seq<char>, nat>, key: Seq<char>)
    requires
        is_managed_key(prefix),
        labels::count_labels(prefix, suffix, c).contains_key(key),
    ensures
        is_managed_key(key),
{
    let m = choose|m: Seq<char>| c.contains_key(m) && key == #[trigger] (prefix + m + suffix);
    assert(key =~= prefix + (m + suffix));
    let rest = m + suffix;
    if scan::has_prefix(prefix, "accel.lunnova.dev/"@) {
        scan::lemma_prefix_extends(prefix, rest, "accel.lunnova.dev/"@);
    } else if scan::has_prefix(prefix, "accel-topo.lunnova.dev/"@) {
        scan::lemma_prefix_extends(prefix, rest, "accel-topo.lunnova.dev/"@);
    } else if scan::has_prefix(prefix, "accel-ready.lunnova.dev/"@) {
        scan::lemma_prefix_extends(prefix, rest, "accel-ready.lunnova.dev/"@);
    } else {
        scan::lemma_prefix_extends(prefix, rest, "accel-net.lunnova.dev/"@);
    }
}

/// Every label that the daemon writes is its own, so that it goes away when
/// the daemon no longer wants it.
pub proof fn law_labels_are_owned(
    t: NodeTopology,
    accels: Seq<Accelerator>,
    devices: Seq<RdmaDevice>,
    r: NodeReadiness,
    key: Seq<char>,
)
    requires
        preflight::ready_labels(labels::rdma_labels(labels::labels_of(t, accels), devices), r).contains_key(
            key,
        ),
    ensures
        is_managed_key(key),
{
    reveal_strlit("accel-ready.lunnova.dev/");
    reveal_strlit("accel-topo.lunnova.dev/");
    reveal_strlit("accel-net.lunnova.dev/");
    reveal_strlit("accel.lunnova.dev/");
    reveal_strlit("accel-net.lunnova.dev/rdma");
    reveal_strlit("accel-topo.lunnova.dev/block");
    reveal_strlit("accel-topo.lunnova.dev/rack");
    reveal_strlit("accel-topo.lunnova.dev/fabric-domain.");
    reveal_strlit("accel-topo.lunnova.dev/fabric-domains-count");
    reveal_strlit("accel.lunnova.dev/vendor.");
    reveal_strlit("accel.lunnova.dev/model.");
    reveal_strlit("accel.lunnova.dev/memory-kind.");
    reveal_strlit("accel.lunnova.dev/total-count");
    reveal_strlit("accel-ready.lunnova.dev/inference");
    reveal_strlit("accel-ready.lunnova.dev/training");
    assert("accel-net.lunnova.dev/rdma"@.take(22) =~= "accel-net.lunnova.dev/"@);
    assert("accel-topo.lunnova.dev/block"@.take(23) =~= "accel-topo.lunnova.dev/"@);
    assert("accel-topo.lunnova.dev/rack"@.take(23) =~= "accel-topo.lunnova.dev/"@);
    assert("accel-topo.lunnova.dev/fabric-domain."@.take(23) =~= "accel-topo.lunnova.dev/"@);
    assert("accel-topo.lunnova.dev/fabric-domains-count"@.take(23) =~= "accel-topo.lunnova.dev/"@);
    assert("accel.lunnova.dev/vendor."@.take(18) =~= "accel.lunnova.dev/"@);
    assert("accel.lunnova.dev/model."@.take(18) =~= "accel.lunnova.dev/"@);
    assert("accel.lunnova.dev/memory-kind."@.take(18) =~= "accel.lunnova.dev/"@);
    assert("accel.lunnova.dev/total-count"@.take(18) =~= "accel.lunnova.dev/"@);
    assert("accel-ready.lunnova.dev/inference"@.take(24) =~= "accel-ready.lunnova.dev/"@);
    assert("accel-ready.lunnova.dev/training"@.take(24) =~= "accel-ready.lunnova.dev/"@);
    let domains = labels::tally(labels::domain_sizes(t.fabric_domains@));
    let vendors = labels::tally(labels::vendors(accels));
    let models = labels::tally(labels::model_slugs(accels));
    let kinds = labels::tally(labels::memory_kinds(accels));
    let physical = labels::physical_counts(accels);
    if labels::count_labels("accel-topo.lunnova.dev/fabric-domain."@, ""@, domains).contains_key(key) {
        lemma_count_label_owned("accel-topo.lunnova.dev/fabric-domain."@, ""@, domains, key);
    } else if labels::count_labels("accel.lunnova.dev/vendor."@, ".count"@, vendors).contains_key(key) {
        lemma_count_label_owned("accel.lunnova.dev/vendor."@, ".count"@, vendors, key);
    } else if labels::count_labels("accel.lunnova.dev/model."@, ".count"@, models).contains_key(key) {
        lemma_count_label_owned("accel.lunnova.dev/model."@, ".count"@, models, key);
    } else if labels::count_labels("accel.lunnova.dev/memory-kind."@, ".count"@, kinds).contains_key(key) {
        lemma_count_label_owned("accel.lunnova.dev/memory-kind."@, ".count"@, kinds, key);
    } else if labels::count_labels("accel.lunnova.dev/vendor."@, ".physical-count"@, physical).contains_key(
        key,
    ) {
        lemma_count_label_owned("accel.lunnova.dev/vendor."@, ".physical-count"@, physical, key);
    }
}

/// Every annotation that the daemon writes is its own.
pub proof fn law_annotations_are_owned(
    inventory: Option<Seq<char>>,
    fabric_graph: Option<Seq<char>>,
    rdma_inventory: Option<Seq<char>>,
    now: Seq<char>,
    failed: Seq<Seq<char>>,
    key: Seq<char>,
)
    requires
        preflight::ready_annotations(
            labels::rdma_annotations(labels::annotations_of(inventory, fabric_graph), rdma_inventory),
            now,
            failed,
        ).contains_key(key),
    ensures
        is_managed_key(key),
{
    reveal_strlit("accel-ready.lunnova.dev/");
    reveal_strlit("accel.lunnova.dev/");
    reveal_strlit("accel.lunnova.dev/inventory");
    reveal_strlit("accel.lunnova.dev/fabric-graph");
    reveal_strlit("accel-net.lunnova.dev/");
    reveal_strlit("accel-net.lunnova.dev/rdma-inventory");
    reveal_strlit("accel-ready.lunnova.dev/last-check");
    reveal_strlit("accel-ready.lunnova.dev/failed");
    assert("accel-net.lunnova.dev/rdma-inventory"@.take(22) =~= "accel-net.lunnova.dev/"@);
    assert("accel.lunnova.dev/inventory"@.take(18) =~= "accel.lunnova.dev/"@);
    assert("accel.lunnova.dev/fabric-graph"@.take(18) =~= "accel.lunnova.dev/"@);
    assert("accel-ready.lunnova.dev/last-check"@.take(24) =~= "accel-ready.lunnova.dev/"@);
    assert("accel-ready.lunnova.dev/failed"@.take(24) =~= "accel-ready.lunnova.dev/"@);
}

// ---------------------------------------------------------------------
// Reconciling
// ---------------------------------------------------------------------

/// How the labeler works.
#[derive(Debug, Clone, Copy, PartialEq, Eq, Structural)]
pub enum LabelerMode {
    /// Intended labels are only shown.
    Disabled,
    /// Labels are patched.
    Active,
}

/// The labeler is active if it is enabled and there is a client to work
/// with.
pub fn labeler_mode(enabled: bool, client_ready: bool) -> (r: LabelerMode)
    ensures
        r == if enabled && client_ready {
            LabelerMode::Active
        } else {
            LabelerMode::Disabled
        },
{
    if enabled && client_ready {
        LabelerMode::Active
    } else {
        LabelerMode::Disabled
    }
}

/// Whether this is the first time; from now on it is not.
pub fn announce(announced: &mut bool) -> (first: bool)
    ensures
        first == !*old(announced),
        *final(announced),
{
    let first = !*announced;
    *announced = true;
    first
}

/// How often a patch is sent at most.
pub const MAX_ATTEMPTS: u32 = 3;

/// What to do after an attempt to patch.
#[derive(Debug, Clone, Copy, PartialEq, Eq, Structural)]
pub enum PatchNext {
    /// The node is patched.
    Done,
    /// Try again after so many milliseconds.
    Retry(u64),
    /// Leave it for the next cycle.
    GiveUp,
}

/// The wait after a failed attempt, in milliseconds: 400, then 800.
pub open spec fn backoff_after(attempt: nat) -> nat
    decreases attempt,
{
    if attempt == 0 {
        200
    } else {
        2 * backoff_after((attempt - 1) as nat)
    }
}

/// What to do after attempt number `attempt`, counted from one.
pub open spec fn next_after(attempt: nat, patched: bool) -> PatchNext {
    if patched {
        PatchNext::Done
    } else if attempt < MAX_ATTEMPTS {
        PatchNext::Retry(backoff_after(attempt) as u64)
    } else {
        PatchNext::GiveUp
    }
}

/// What to do after attempt number `attempt`, counted from one.
pub fn after_patch(attempt: u32, patched: bool) -> (r: PatchNext)
    ensures
        r == next_after(attempt as nat, patched),
{
    if patched {
        return PatchNext::Done;
    }
    if attempt >= MAX_ATTEMPTS {
        return PatchNext::GiveUp;
    }
    let mut wait: u64 = 200;
    let mut i: u32 = 0;
    while i < attempt
        invariant
            i <= attempt < MAX_ATTEMPTS,
            wait == backoff_after(i as nat),
            i == 0 ==> wait == 200,
            i == 1 ==> wait == 400,
            i == 2 ==> wait == 800,
        decreases attempt - i,
    {
        i = i + 1;
        assert(backoff_after(i as nat) == 2 * backoff_after((i - 1) as nat));
        wait = wait * 2;
    }
    PatchNext::Retry(wait)
}

/// What a reconcile does next.
pub enum ApplyStep {
    /// Send the patch.
    Send(MergePatch),
    /// The node could not be read: leave it for the next cycle.
    Skip,
}

/// The labels and annotations that a node carries.
pub struct NodeMeta {
    pub labels: Option<TextMap<String>>,
    pub annotations: Option<TextMap<String>>,
}

/// The texts of an optional map that is owned.
pub open spec fn meta_values(m: Option<TextMap<String>>) -> Map<Seq<char>, Seq<char>> {
    match m {
        Some(t) => textmap::text_values(t),
        None => Map::empty(),
    }
}

/// How a reconcile begins: with the patch for the node as it was read, if it
/// could be read.
pub fn apply(current: Option<NodeMeta>, desired: &LabelSet) -> (r: ApplyStep)
    ensures
        match (current, r) {
            (Some(node), ApplyStep::Send(p)) => json::json_members(p.labels) == section(
                meta_values(node.labels),
                textmap::text_values(desired.labels),
            ) && json::json_members(p.annotations) == section(
                meta_values(node.annotations),
                textmap::text_values(desired.annotations),
            ),
            (None, ApplyStep::Skip) => true,
            _ => false,
        },
{
    match current {
        None => ApplyStep::Skip,
        Some(node) => ApplyStep::Send(
            build_merge_patch(node.labels.as_ref(), node.annotations.as_ref(), desired),
        ),
    }
}

/// How many patches are sent from attempt `attempt` on, where attempt number
/// `i` comes out as `outcomes[i - 1]`.
pub open spec fn attempts_made(outcomes: Seq<bool>, attempt: nat) -> nat
    decreases MAX_ATTEMPTS as nat + 1 - attempt,
{
    if attempt > MAX_ATTEMPTS || attempt == 0 {
        0
    } else {
        match next_after(attempt, outcomes[attempt - 1]) {
            PatchNext::Retry(_) => 1 + attempts_made(outcomes, attempt + 1),
            _ => 1,
        }
    }
}

/// A patch is sent at most three times, and no more once it was taken.
pub proof fn law_bounded_attempts(outcomes: Seq<bool>)
    ensures
        1 <= attempts_made(outcomes, 1) <= 3,
        forall|i: int| 0 <= i < attempts_made(outcomes, 1) - 1 ==> !#[trigger] outcomes[i],
        attempts_made(outcomes, 1) < 3 ==> outcomes[attempts_made(outcomes, 1) - 1],
{
    reveal_with_fuel(attempts_made, 4);
}

} // verus!
