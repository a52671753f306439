//! The console: a read-only web page about the cluster. What it shows comes
//! from the labels and annotations of the nodes, and from the telemetry
//! store that the daemons feed.

pub mod assets;
pub mod k8s;
pub mod laws;
pub mod mutel;
pub mod routes;

use crate::config;
use crate::text;
use crate::textmap::TextMap;
use vstd::prelude::*;

verus! {

/// The console's command line.
#[derive(Debug)]
pub struct AdminArgs {
    /// The address to listen on.
    pub listen: Option<String>,
    /// Base address of the telemetry store to query.
    pub mutel_endpoint: Option<String>,
    /// Base address of the OTLP receiver for the console's own telemetry.
    pub otlp_endpoint: Option<String>,
    /// The `service.name` of what is exported.
    pub service_name: Option<String>,
    /// The longest time of a query, in seconds.
    pub mutel_timeout_secs: Option<u64>,
    /// Do without a cluster.
    pub no_k8s: bool,
}

/// The arguments with nothing left open.
#[derive(Debug)]
pub struct Resolved {
    pub listen: String,
    pub mutel_endpoint: String,
    pub otlp_endpoint: String,
    pub service_name: String,
    pub mutel_timeout_secs: u64,
    pub no_k8s: bool,
}

impl AdminArgs {
    /// The arguments with what is open taken from the environment `env`, and
    /// after that from the defaults.
    pub fn resolve(self, env: &TextMap<String>) -> (r: Resolved)
        ensures
            r.listen@ == config::value_or(
                config::first_of(
                    text::opt_text(self.listen),
                    config::env_text(*env, "ACCELRD_ADMIN_LISTEN"@),
                ),
                "0.0.0.0:8080"@,
            ),
            r.mutel_endpoint@ == config::value_or(
                config::first_of(
                    text::opt_text(self.mutel_endpoint),
                    config::env_text(*env, "ACCELRD_MUTEL_ENDPOINT"@),
                ),
                "http://mutel.observability.svc.cluster.local:4318"@,
            ),
            r.otlp_endpoint@ == config::value_or(
                config::first_of(
                    text::opt_text(self.otlp_endpoint),
                    config::env_text(*env, "ACCELRD_OTLP_ENDPOINT"@),
                ),
                "http://127.0.0.1:4318"@,
            ),
            r.service_name@ == config::value_or(
                config::first_of(
                    text::opt_text(self.service_name),
                    config::env_text(*env, "OTEL_SERVICE_NAME"@),
                ),
                "accelrd-admin"@,
            ),
            r.mutel_timeout_secs == config::value_or(
                config::first_of(
                    config::opt_nat(self.mutel_timeout_secs),
                    config::env_number(*env, "ACCELRD_ADMIN_MUTEL_TIMEOUT_SECS"@),
                ),
                5,
            ),
            r.no_k8s == self.no_k8s,
    {
        Resolved {
            listen: config::text_or_default(self.listen, env, "ACCELRD_ADMIN_LISTEN", "0.0.0.0:8080"),
            mutel_endpoint: config::text_or_default(
                self.mutel_endpoint,
                env,
                "ACCELRD_MUTEL_ENDPOINT",
                "http://mutel.observability.svc.cluster.local:4318",
            ),
            otlp_endpoint: config::text_or_default(
                self.otlp_endpoint,
                env,
                "ACCELRD_OTLP_ENDPOINT",
                "http://127.0.0.1:4318",
            ),
            service_name: config::text_or_default(
                self.service_name,
                env,
                "OTEL_SERVICE_NAME",
                "accelrd-admin",
            ),
            mutel_timeout_secs: config::number_or_default(
                self.mutel_timeout_secs,
                env,
                "ACCELRD_ADMIN_MUTEL_TIMEOUT_SECS",
                5,
            ),
            no_k8s: self.no_k8s,
        }
    }
}

impl Resolved {
    /// What is said where `listen` is no address.
    pub fn listen_error(&self) -> (r: String)
        ensures
            r@ == "parse listen addr "@ + text::debug_text(self.listen@),
    {
        text::join2("parse listen addr ", text::quoted(self.listen.as_str()).as_str())
    }
}

} // verus!
