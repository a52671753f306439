//! The prober: pairs nodes of one rack and has each pair measure the
//! bandwidth between them, with short-lived pods that are pinned to the two
//! nodes.

pub mod annotations;
pub mod laws;
pub mod pair;
pub mod pods;
pub mod reconcile;
pub mod results;

use crate::config;
use crate::text;
use crate::textmap::TextMap;
use vstd::prelude::*;

pub use annotations::ANN_LAST_AT;

verus! {

/// The prober's command line.
#[derive(Debug)]
pub struct ProberArgs {
    /// Base address of the OTLP receiver for the prober's own telemetry.
    pub otlp_endpoint: Option<String>,
    /// The `service.name` of what is exported.
    pub service_name: Option<String>,
    /// The least time between two probes of a node, in seconds. Probes take
    /// bandwidth from the nodes under test.
    pub cadence_secs: Option<u64>,
    /// Seconds between two looks at the racks.
    pub reconcile_interval_secs: Option<u64>,
    /// The image of the probe pods.
    pub probe_image: Option<String>,
    /// The namespace of the probe pods.
    pub namespace: Option<String>,
    /// How long a probe runs, in seconds.
    pub test_duration_secs: Option<u64>,
    /// How many probes may run at once.
    pub max_concurrent_pairs: Option<u32>,
    /// Look at the racks once, and end.
    pub once: bool,
}

/// The arguments with nothing left open.
#[derive(Debug)]
pub struct Resolved {
    pub otlp_endpoint: String,
    pub service_name: String,
    pub cadence_secs: u64,
    pub reconcile_interval_secs: u64,
    pub probe_image: Option<String>,
    pub namespace: String,
    pub test_duration_secs: u64,
    pub max_concurrent_pairs: u32,
    pub once: bool,
}

impl Clone for Resolved {
    fn clone(&self) -> (r: Self)
        ensures
            r == *self,
    {
        Resolved {
            otlp_endpoint: self.otlp_endpoint.clone(),
            service_name: self.service_name.clone(),
            cadence_secs: self.cadence_secs,
            reconcile_interval_secs: self.reconcile_interval_secs,
            probe_image: text::clone_opt(&self.probe_image),
            namespace: self.namespace.clone(),
            test_duration_secs: self.test_duration_secs,
            max_concurrent_pairs: self.max_concurrent_pairs,
            once: self.once,
        }
    }
}

/// The number of probes at once: the one given, the low 32 bits of the one
/// in the environment, or four.
pub open spec fn pairs_of(given: Option<u32>, env: Option<nat>) -> nat {
    match given {
        Some(n) => n as nat,
        None => match env {
            Some(n) => n % 0x1_0000_0000,
            None => 4,
        },
    }
}

fn pairs_at_once(given: Option<u32>, env: &TextMap<String>) -> (r: u32)
    ensures
        r == pairs_of(given, config::env_number(*env, "ACCELRD_PROBER_MAX_CONCURRENT_PAIRS"@)),
{
    match given {
        Some(n) => n,
        None => match config::env_u64(env, "ACCELRD_PROBER_MAX_CONCURRENT_PAIRS") {
            Some(n) => (n % 0x1_0000_0000) as u32,
            None => 4,
        },
    }
}

impl ProberArgs {
    /// The arguments with what is open taken from the environment `env`, and
    /// after that from the defaults.
    pub fn resolve(self, env: &TextMap<String>) -> (r: Resolved)
        ensures
            r.otlp_endpoint@ == config::value_or(
                config::first_of(
                    text::opt_text(self.otlp_endpoint),
                    config::env_text(*env, "ACCELRD_OTLP_ENDPOINT"@),
                ),
                "http://127.0.0.1:4318"@,
            ),
            r.service_name@ == config::value_or(
                config::first_of(
                    text::opt_text(self.service_name),
                    config::env_text(*env, "OTEL_SERVICE_NAME"@),
                ),
                "accelrd-prober"@,
            ),
            r.cadence_secs == config::value_or(
                config::first_of(
                    config::opt_nat(self.cadence_secs),
                    config::env_number(*env, "ACCELRD_PROBER_CADENCE_SECS"@),
                ),
                21_600,
            ),
            r.reconcile_interval_secs == config::value_or(
                config::first_of(
                    config::opt_nat(self.reconcile_interval_secs),
                    config::env_number(*env, "ACCELRD_PROBER_RECONCILE_INTERVAL_SECS"@),
                ),
                300,
            ),
            text::opt_text(r.probe_image) == config::first_of(
                text::opt_text(self.probe_image),
                config::env_text(*env, "ACCELRD_PROBER_PROBE_IMAGE"@),
            ),
            r.namespace@ == config::value_or(
                config::first_of(
                    text::opt_text(self.namespace),
                    config::env_text(*env, "ACCELRD_PROBER_NAMESPACE"@),
                ),
                "accelrd"@,
            ),
            r.test_duration_secs == config::value_or(
                config::first_of(
                    config::opt_nat(self.test_duration_secs),
                    config::env_number(*env, "ACCELRD_PROBER_TEST_DURATION_SECS"@),
                ),
                30,
            ),
            r.max_concurrent_pairs == pairs_of(
                self.max_concurrent_pairs,
                config::env_number(*env, "ACCELRD_PROBER_MAX_CONCURRENT_PAIRS"@),
            ),
            r.once == self.once,
    {
        Resolved {
            otlp_endpoint: config::text_or_default(
                self.otlp_endpoint,
                env,
                "ACCELRD_OTLP_ENDPOINT",
                "http://127.0.0.1:4318",
            ),
            service_name: config::text_or_default(
                self.service_name,
                env,
                "OTEL_SERVICE_NAME",
                "accelrd-prober",
            ),
            cadence_secs: config::number_or_default(
                self.cadence_secs,
                env,
                "ACCELRD_PROBER_CADENCE_SECS",
                21_600,
            ),
            reconcile_interval_secs: config::number_or_default(
                self.reconcile_interval_secs,
                env,
                "ACCELRD_PROBER_RECONCILE_INTERVAL_SECS",
                300,
            ),
            probe_image: config::text_or_env(self.probe_image, env, "ACCELRD_PROBER_PROBE_IMAGE"),
            namespace: config::text_or_default(self.namespace, env, "ACCELRD_PROBER_NAMESPACE", "accelrd"),
            test_duration_secs: config::number_or_default(
                self.test_duration_secs,
                env,
                "ACCELRD_PROBER_TEST_DURATION_SECS",
                30,
            ),
            max_concurrent_pairs: pairs_at_once(self.max_concurrent_pairs, env),
            once: self.once,
        }
    }
}

impl Resolved {
    /// Why the prober cannot start, if it cannot.
    pub fn refusal(&self) -> (r: Option<&'static str>)
        ensures
            text::opt_str(r) == (if self.probe_image is None {
                Some("probe_image is required (set --probe-image or ACCELRD_PROBER_PROBE_IMAGE)"@)
            } else {
                None
            }),
    {
        match &self.probe_image {
            Some(_) => None,
            None => Some("probe_image is required (set --probe-image or ACCELRD_PROBER_PROBE_IMAGE)"),
        }
    }
}

} // verus!
