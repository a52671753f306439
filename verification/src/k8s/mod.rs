//! Publishing to Kubernetes. In a cluster the node's labels are patched;
//! outside one the intended labels are only shown.

pub mod facts;
pub mod labeler;
pub mod laws;
pub mod node;

use crate::config::Resolved;
use vstd::prelude::*;

verus! {

/// Whether the process runs in a pod that can use the API: there is a
/// service account's token, and the API's address is known.
pub fn looks_in_cluster(token_exists: bool, service_host_set: bool) -> (r: bool)
    ensures
        r == (token_exists && service_host_set),
{
    token_exists && service_host_set
}

/// Whether to publish: in a cluster, unless that was ruled out.
pub fn enabled(args: &Resolved, token_exists: bool, service_host_set: bool) -> (r: bool)
    ensures
        r == (!args.no_k8s && token_exists && service_host_set),
{
    !args.no_k8s && looks_in_cluster(token_exists, service_host_set)
}

} // verus!
