//! What is published, by whom, and how often it is tried.

use super::facts;
use super::labeler;
use super::labeler::PatchNext;
use crate::config;
use crate::scan;
use crate::textmap::TextMap;
use vstd::prelude::*;

verus! {

/// The daemon owns what stands under its own four domains, and nothing that
/// begins otherwise: the tests' annotations are the prober's.
pub proof fn law_what_the_daemon_owns(rest: Seq<char>, key: Seq<char>)
    ensures
        labeler::is_managed_key("accel.lunnova.dev/"@ + rest),
        labeler::is_managed_key("accel-topo.lunnova.dev/"@ + rest),
        labeler::is_managed_key("accel-ready.lunnova.dev/"@ + rest),
        labeler::is_managed_key("accel-net.lunnova.dev/"@ + rest),
        !labeler::is_managed_key("accel-test.lunnova.dev/"@ + rest),
        !labeler::is_managed_key("kubernetes.io/"@ + rest),
        labeler::is_managed_key(key) ==> scan::has_prefix(key, "accel.lunnova.dev/"@) || scan::has_prefix(
            key,
            "accel-topo.lunnova.dev/"@,
        ) || scan::has_prefix(key, "accel-ready.lunnova.dev/"@) || scan::has_prefix(
            key,
            "accel-net.lunnova.dev/"@,
        ),
{
    reveal_strlit("accel.lunnova.dev/");
    reveal_strlit("accel-topo.lunnova.dev/");
    reveal_strlit("accel-ready.lunnova.dev/");
    reveal_strlit("accel-net.lunnova.dev/");
    reveal_strlit("accel-test.lunnova.dev/");
    reveal_strlit("kubernetes.io/");
    let a = "accel.lunnova.dev/"@;
    let t = "accel-topo.lunnova.dev/"@;
    let r = "accel-ready.lunnova.dev/"@;
    let n = "accel-net.lunnova.dev/"@;
    assert((a + rest).take(a.len() as int) =~= a);
    assert((t + rest).take(t.len() as int) =~= t);
    assert((r + rest).take(r.len() as int) =~= r);
    assert((n + rest).take(n.len() as int) =~= n);
    let x = "accel-test.lunnova.dev/"@ + rest;
    assert(x[5] == '-' && x[6] == 't' && x[7] == 'e');
    assert(a[5] == '.' && t[7] == 'o' && r[6] == 'r' && n[6] == 'n');
    if x.len() >= a.len() {
        assert(x.take(a.len() as int)[5] == x[5]);
    }
    if x.len() >= t.len() {
        assert(x.take(t.len() as int)[7] == x[7]);
    }
    if x.len() >= r.len() {
        assert(x.take(r.len() as int)[6] == x[6]);
    }
    if x.len() >= n.len() {
        assert(x.take(n.len() as int)[6] == x[6]);
    }
    let y = "kubernetes.io/"@ + rest;
    assert(y[0] == 'k');
    assert(a[0] == 'a' && t[0] == 'a' && r[0] == 'a' && n[0] == 'a');
    if y.len() >= a.len() {
        assert(y.take(a.len() as int)[0] == y[0]);
    }
    if y.len() >= t.len() {
        assert(y.take(t.len() as int)[0] == y[0]);
    }
    if y.len() >= r.len() {
        assert(y.take(r.len() as int)[0] == y[0]);
    }
    if y.len() >= n.len() {
        assert(y.take(n.len() as int)[0] == y[0]);
    }
}

/// A patch that was taken is done. One that was not is tried again after the
/// first and the second attempt, after a wait that doubles, and left after
/// the third.
pub proof fn law_attempts(attempt: nat)
    ensures
        labeler::next_after(attempt, true) == PatchNext::Done,
        labeler::next_after(1, false) == PatchNext::Retry(400),
        labeler::next_after(2, false) == PatchNext::Retry(800),
        attempt >= 3 ==> labeler::next_after(attempt, false) == PatchNext::GiveUp,
{
    reveal_with_fuel(labeler::backoff_after, 4);
}

/// What a patch sends is what is wanted, and a deletion for what the daemon
/// owns and no longer wants. Nothing else is in it.
pub proof fn law_what_a_patch_sends(
    current: Map<Seq<char>, Seq<char>>,
    desired: Map<Seq<char>, Seq<char>>,
    key: Seq<char>,
)
    ensures
        ({
            let patch = labeler::section(current, desired);
            &&& desired.contains_key(key) ==> patch.contains_key(key) && patch[key] == Some(desired[key])
            &&& !desired.contains_key(key) && current.contains_key(key) && labeler::is_managed_key(key)
                ==> patch.contains_key(key) && patch[key] is None
            &&& !desired.contains_key(key) && (!current.contains_key(key) || !labeler::is_managed_key(key))
                ==> !patch.contains_key(key)
        }),
{
}

/// A text that is there and not empty.
pub open spec fn is_set(s: Option<Seq<char>>) -> bool {
    s is Some && s->0.len() > 0
}

/// The value of an environment variable.
pub open spec fn variable(env: TextMap<String>, key: Seq<char>) -> Option<Seq<char>> {
    if env@.contains_key(key) {
        Some(env@[key]@)
    } else {
        None
    }
}

/// A host's name without white space around it.
pub open spec fn bare(hostname: Option<Seq<char>>) -> Option<Seq<char>> {
    match hostname {
        Some(s) => Some(scan::trim_space(s)),
        None => None,
    }
}

/// A node goes by the name that is given; without one by that of
/// `NODE_NAME`; without that by the host's own; and else it is unknown.
pub proof fn law_name_of_a_node(given: Option<Seq<char>>, env: TextMap<String>, hostname: Option<Seq<char>>)
    ensures
        ({
            let name = facts::name_of(given, env, hostname);
            let set = variable(env, "NODE_NAME"@);
            &&& given matches Some(n) ==> name == n
            &&& given is None && is_set(set) ==> name == set->0
            &&& given is None && !is_set(set) && is_set(bare(hostname)) ==> name == bare(hostname)->0
            &&& given is None && !is_set(set) && !is_set(bare(hostname)) ==> name == "unknown"@
        }),
{
}

/// A process goes by the name in `NODE_NAME`, else by that in `HOSTNAME`,
/// else by the host's own, and else it is unknown.
pub proof fn law_name_of_a_host(env: TextMap<String>, hostname: Option<Seq<char>>)
    ensures
        ({
            let name = facts::identity_of(env, hostname);
            let first = variable(env, "NODE_NAME"@);
            let second = variable(env, "HOSTNAME"@);
            &&& is_set(first) ==> name == first->0
            &&& !is_set(first) && is_set(second) ==> name == second->0
            &&& !is_set(first) && !is_set(second) && is_set(bare(hostname)) ==> name == bare(hostname)->0
            &&& !is_set(first) && !is_set(second) && !is_set(bare(hostname)) ==> name == "unknown"@
        }),
{
}

/// What the command line gives goes before what the environment holds, and
/// that before the default; an empty variable counts as none, and so does one
/// that holds no number where a number is wanted.
pub proof fn law_where_arguments_come_from(
    given: Option<Seq<char>>,
    env: TextMap<String>,
    key: Seq<char>,
    default: Seq<char>,
)
    ensures
        ({
            let value = config::value_or(config::first_of(given, config::env_text(env, key)), default);
            &&& given matches Some(s) ==> value == s
            &&& given is None && is_set(variable(env, key)) ==> value == variable(env, key)->0
            &&& given is None && !is_set(variable(env, key)) ==> value == default
        }),
        variable(env, key) is None ==> config::env_number(env, key) is None,
        variable(env, key) matches Some(s) ==> config::env_number(env, key) == crate::number::bounded_of(
            s,
            10,
            u64::MAX as nat,
        ),
{
}

} // verus!
