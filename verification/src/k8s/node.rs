//! The parts of a Kubernetes node that the prober and the console read.

use crate::text;
use crate::textmap::TextMap;
use vstd::prelude::*;

verus! {

/// A condition of a node.
pub struct ConditionObject {
    pub kind: String,
    pub status: String,
    pub reason: Option<String>,
}

/// A node.
pub struct NodeObject {
    pub name: Option<String>,
    pub labels: Option<TextMap<String>>,
    pub annotations: Option<TextMap<String>>,
    /// The conditions, where the node has a status that holds any.
    pub conditions: Option<Vec<ConditionObject>>,
    pub unschedulable: bool,
    pub kubelet_version: Option<String>,
}

/// The value of a label or an annotation.
pub open spec fn lookup(m: Option<TextMap<String>>, key: Seq<char>) -> Option<Seq<char>> {
    match m {
        Some(t) => if t@.contains_key(key) {
            Some(t@[key]@)
        } else {
            None
        },
        None => None,
    }
}

/// The value of a label or an annotation.
pub fn value_of(m: &Option<TextMap<String>>, key: &str) -> (r: Option<String>)
    ensures
        text::opt_text(r) == lookup(*m, key@),
{
    match m {
        Some(t) => match t.get(key) {
            Some(s) => Some(s.clone()),
            None => None,
        },
        None => None,
    }
}

/// The condition says that the node is ready.
pub open spec fn says_ready(c: ConditionObject) -> bool {
    c.kind@ == "Ready"@ && c.status@ == "True"@
}

/// One of the conditions says that the node is ready.
pub open spec fn any_says_ready(v: Seq<ConditionObject>) -> bool {
    exists|i: int| 0 <= i < v.len() && says_ready(#[trigger] v[i])
}

/// The node has a condition that says that it is ready.
pub open spec fn node_ready(node: NodeObject) -> bool {
    match node.conditions {
        Some(v) => any_says_ready(v@),
        None => false,
    }
}

fn any_ready(v: &Vec<ConditionObject>) -> (r: bool)
    ensures
        r == any_says_ready(v@),
{
    let mut i: usize = 0;
    while i < v.len()
        invariant
            i <= v@.len(),
            forall|k: int| 0 <= k < i ==> !says_ready(#[trigger] v@[k]),
        decreases v@.len() - i,
    {
        if text::same(v[i].kind.as_str(), "Ready") && text::same(v[i].status.as_str(), "True") {
            assert(says_ready(v@[i as int]));
            return true;
        }
        i = i + 1;
    }
    false
}

/// Whether the node is ready.
pub fn is_ready(node: &NodeObject) -> (r: bool)
    ensures
        r == node_ready(*node),
{
    match &node.conditions {
        Some(v) => any_ready(v),
        None => false,
    }
}

} // verus!
