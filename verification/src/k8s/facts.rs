//! The node's name.

use crate::config;
use crate::config::Resolved;
use crate::scan;
use crate::text;
use crate::textmap::TextMap;
use vstd::prelude::*;

verus! {

/// The node's name: the one given, that in `NODE_NAME`, the host's, or
/// `unknown`.
pub open spec fn name_of(
    given: Option<Seq<char>>,
    env: TextMap<String>,
    hostname: Option<Seq<char>>,
) -> Seq<char> {
    let host = match hostname {
        Some(s) => if scan::trim_space(s).len() > 0 {
            Some(scan::trim_space(s))
        } else {
            None
        },
        None => None,
    };
    config::value_or(
        config::first_of(given, config::first_of(config::env_text(env, "NODE_NAME"@), host)),
        "unknown"@,
    )
}

/// The node's name. `hostname` is the contents of
/// `/proc/sys/kernel/hostname`, where it could be read.
pub fn node_name(args: &Resolved, env: &TextMap<String>, hostname: Option<&str>) -> (r: String)
    ensures
        r@ == name_of(text::opt_text(args.node_name), *env, text::opt_str(hostname)),
{
    match &args.node_name {
        Some(n) => {
            return n.clone();
        },
        None => {},
    }
    match config::env_string(env, "NODE_NAME") {
        Some(n) => {
            return n;
        },
        None => {},
    }
    match hostname {
        Some(s) => {
            let t = scan::trim(s);
            if text::is_empty(t.as_str()) {
                "unknown".to_owned()
            } else {
                t
            }
        },
        None => "unknown".to_owned(),
    }
}

/// The name of the host that a process runs on: `NODE_NAME`, `HOSTNAME`, the
/// host's own, or `unknown`.
pub open spec fn identity_of(env: TextMap<String>, hostname: Option<Seq<char>>) -> Seq<char> {
    let host = match hostname {
        Some(s) => if scan::trim_space(s).len() > 0 {
            Some(scan::trim_space(s))
        } else {
            None
        },
        None => None,
    };
    config::value_or(
        config::first_of(
            config::env_text(env, "NODE_NAME"@),
            config::first_of(config::env_text(env, "HOSTNAME"@), host),
        ),
        "unknown"@,
    )
}

/// The name of the host that the process runs on. `hostname` is the contents
/// of `/proc/sys/kernel/hostname`, where it could be read.
pub fn host_identity(env: &TextMap<String>, hostname: Option<&str>) -> (r: String)
    ensures
        r@ == identity_of(*env, text::opt_str(hostname)),
{
    match config::env_string(env, "NODE_NAME") {
        Some(n) => {
            return n;
        },
        None => {},
    }
    match config::env_string(env, "HOSTNAME") {
        Some(n) => {
            return n;
        },
        None => {},
    }
    match hostname {
        Some(s) => {
            let t = scan::trim(s);
            if text::is_empty(t.as_str()) {
                "unknown".to_owned()
            } else {
                t
            }
        },
        None => "unknown".to_owned(),
    }
}

} // verus!
