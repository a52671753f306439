//! The daemon's arguments. What the command line leaves open is taken from
//! the environment, and after that from fixed defaults.

use crate::number;
use crate::text;
use crate::textmap::TextMap;
use vstd::prelude::*;

verus! {

/// The daemon's command line. An option is there if it was given.
#[derive(Debug)]
pub struct Args {
    /// Base address of the OTLP receiver; `/v1/traces`, `/v1/metrics` and
    /// `/v1/logs` are added to it.
    pub otlp_endpoint: Option<String>,
    /// Seconds between two live snapshots.
    pub live_interval_secs: Option<u64>,
    /// Seconds between two preflight cycles.
    pub preflight_interval_secs: Option<u64>,
    /// Row or power domain of the node.
    pub block: Option<String>,
    /// Leaf switch of the node.
    pub rack: Option<String>,
    /// The `service.name` of what is exported.
    pub service_name: Option<String>,
    /// The node's name.
    pub node_name: Option<String>,
    /// Run one preflight cycle and one snapshot, and end.
    pub once: bool,
    /// Leave the node's labels alone.
    pub no_k8s: bool,
    /// Do not listen for LLDP frames.
    pub no_lldp: bool,
    /// How many seconds to listen for LLDP frames.
    pub lldp_timeout_secs: Option<u64>,
}

/// The arguments with nothing left open.
#[derive(Debug)]
pub struct Resolved {
    pub otlp_endpoint: String,
    pub live_interval_secs: u64,
    pub preflight_interval_secs: u64,
    pub block: Option<String>,
    pub rack: Option<String>,
    pub service_name: String,
    pub node_name: Option<String>,
    pub once: bool,
    pub no_k8s: bool,
    pub no_lldp: bool,
    pub lldp_timeout_secs: u64,
}

/// The value of an environment variable.
pub open spec fn env_of(env: TextMap<String>, key: Seq<char>) -> Option<Seq<char>> {
    if env@.contains_key(key) {
        Some(env@[key]@)
    } else {
        None
    }
}

/// The value of an environment variable, unless it is empty.
pub open spec fn env_text(env: TextMap<String>, key: Seq<char>) -> Option<Seq<char>> {
    match env_of(env, key) {
        Some(s) => if s.len() > 0 {
            Some(s)
        } else {
            None
        },
        None => None,
    }
}

/// The number that an environment variable holds.
pub open spec fn env_number(env: TextMap<String>, key: Seq<char>) -> Option<nat> {
    match env_of(env, key) {
        Some(s) => number::bounded_of(s, 10, u64::MAX as nat),
        None => None,
    }
}

/// The first value that is there.
pub open spec fn first_of<T>(a: Option<T>, b: Option<T>) -> Option<T> {
    if a is Some {
        a
    } else {
        b
    }
}

/// A value, or the default.
pub open spec fn value_or<T>(a: Option<T>, default: T) -> T {
    match a {
        Some(x) => x,
        None => default,
    }
}

/// An optional machine number as a mathematical one.
pub open spec fn opt_nat(o: Option<u64>) -> Option<nat> {
    match o {
        Some(n) => Some(n as nat),
        None => None,
    }
}

/// The value of the environment variable `key`.
pub fn env_value(env: &TextMap<String>, key: &str) -> (r: Option<String>)
    ensures
        text::opt_text(r) == env_of(*env, key@),
{
    match env.get(key) {
        Some(s) => Some(s.clone()),
        None => None,
    }
}

/// The value of the environment variable `key`, unless it is empty.
pub fn env_string(env: &TextMap<String>, key: &str) -> (r: Option<String>)
    ensures
        text::opt_text(r) == env_text(*env, key@),
{
    match env.get(key) {
        Some(s) => if text::is_empty(s.as_str()) {
            None
        } else {
            Some(s.clone())
        },
        None => None,
    }
}

/// The number that the environment variable `key` holds.
pub fn env_u64(env: &TextMap<String>, key: &str) -> (r: Option<u64>)
    ensures
        opt_nat(r) == env_number(*env, key@),
{
    match env.get(key) {
        Some(s) => number::parse_u64(s.as_str()),
        None => None,
    }
}

/// An option of the command line, or the environment variable `key`.
pub fn text_or_env(given: Option<String>, env: &TextMap<String>, key: &str) -> (r: Option<String>)
    ensures
        text::opt_text(r) == first_of(text::opt_text(given), env_text(*env, key@)),
{
    match given {
        Some(s) => Some(s),
        None => env_string(env, key),
    }
}

/// The same with a default.
pub fn text_or_default(given: Option<String>, env: &TextMap<String>, key: &str, default: &str) -> (r: String)
    ensures
        r@ == value_or(first_of(text::opt_text(given), env_text(*env, key@)), default@),
{
    match text_or_env(given, env, key) {
        Some(s) => s,
        None => default.to_owned(),
    }
}

/// A number of the command line, the environment variable `key`, or the
/// default.
pub fn number_or_default(given: Option<u64>, env: &TextMap<String>, key: &str, default: u64) -> (r: u64)
    ensures
        r == value_or(first_of(opt_nat(given), env_number(*env, key@)), default as nat),
{
    match given {
        Some(n) => n,
        None => match env_u64(env, key) {
            Some(n) => n,
            None => default,
        },
    }
}

impl Args {
    /// The arguments with what is open taken from the environment `env`, and
    /// after that from the defaults.
    pub fn resolve(self, env: &TextMap<String>) -> (r: Resolved)
        ensures
            r.otlp_endpoint@ == value_or(
                first_of(text::opt_text(self.otlp_endpoint), env_text(*env, "ACCELRD_OTLP_ENDPOINT"@)),
                "http://127.0.0.1:4318"@,
            ),
            r.live_interval_secs == value_or(
                first_of(opt_nat(self.live_interval_secs), env_number(*env, "ACCELRD_LIVE_INTERVAL_SECS"@)),
                5,
            ),
            r.preflight_interval_secs == value_or(
                first_of(
                    opt_nat(self.preflight_interval_secs),
                    env_number(*env, "ACCELRD_PREFLIGHT_INTERVAL_SECS"@),
                ),
                30,
            ),
            text::opt_text(r.block) == first_of(text::opt_text(self.block), env_text(*env, "ACCELRD_BLOCK"@)),
            text::opt_text(r.rack) == first_of(text::opt_text(self.rack), env_text(*env, "ACCELRD_RACK"@)),
            r.service_name@ == value_or(
                first_of(text::opt_text(self.service_name), env_text(*env, "OTEL_SERVICE_NAME"@)),
                "accelrd"@,
            ),
            text::opt_text(r.node_name) == first_of(text::opt_text(self.node_name), env_text(*env, "NODE_NAME"@)),
            r.once == self.once,
            r.no_k8s == self.no_k8s,
            r.no_lldp == self.no_lldp,
            r.lldp_timeout_secs == value_or(
                first_of(opt_nat(self.lldp_timeout_secs), env_number(*env, "ACCELRD_LLDP_TIMEOUT_SECS"@)),
                60,
            ),
    {
        Resolved {
            otlp_endpoint: text_or_default(
                self.otlp_endpoint,
                env,
                "ACCELRD_OTLP_ENDPOINT",
                "http://127.0.0.1:4318",
            ),
            live_interval_secs: number_or_default(
                self.live_interval_secs,
                env,
                "ACCELRD_LIVE_INTERVAL_SECS",
                5,
            ),
            preflight_interval_secs: number_or_default(
                self.preflight_interval_secs,
                env,
                "ACCELRD_PREFLIGHT_INTERVAL_SECS",
                30,
            ),
            block: text_or_env(self.block, env, "ACCELRD_BLOCK"),
            rack: text_or_env(self.rack, env, "ACCELRD_RACK"),
            service_name: text_or_default(self.service_name, env, "OTEL_SERVICE_NAME", "accelrd"),
            node_name: text_or_env(self.node_name, env, "NODE_NAME"),
            once: self.once,
            no_k8s: self.no_k8s,
            no_lldp: self.no_lldp,
            lldp_timeout_secs: number_or_default(
                self.lldp_timeout_secs,
                env,
                "ACCELRD_LLDP_TIMEOUT_SECS",
                60,
            ),
        }
    }
}

impl Resolved {
    /// How long to wait for LLDP frames, in seconds; zero for not at all.
    pub fn lldp_wait(&self) -> (r: u64)
        ensures
            r == if self.no_lldp {
                0
            } else {
                self.lldp_timeout_secs
            },
    {
        if self.no_lldp {
            0
        } else {
            self.lldp_timeout_secs
        }
    }
}

} // verus!
