//! Where telemetry is sent, and what it says of its sender.

use crate::scan;
use crate::scan::CharClass;
use crate::telemetry;
use crate::telemetry::{Attr, AttrModel};
use crate::text;
use vstd::prelude::*;

verus! {

/// The longest time of an export, in seconds.
pub const EXPORT_TIMEOUT_SECS: u64 = 3;

/// A kind of telemetry.
#[derive(Debug, Clone, Copy, PartialEq, Eq, Structural)]
pub enum Signal {
    Traces,
    Metrics,
    Logs,
}

impl Signal {
    /// The kind's name.
    pub open spec fn name(self) -> Seq<char> {
        match self {
            Signal::Traces => "traces"@,
            Signal::Metrics => "metrics"@,
            Signal::Logs => "logs"@,
        }
    }

    /// The kind's name.
    pub fn slug(&self) -> (r: &'static str)
        ensures
            r@ == self.name(),
    {
        match self {
            Signal::Traces => "traces",
            Signal::Metrics => "metrics",
            Signal::Logs => "logs",
        }
    }

    /// What is said where the exporter of this kind cannot be made.
    pub fn build_error(&self) -> (r: String)
        ensures
            r@ == "build "@ + self.name() + " exporter"@,
    {
        text::join3("build ", self.slug(), " exporter")
    }
}

/// The address that a kind of telemetry is sent to, under the base address
/// of the receiver.
pub fn signal_endpoint(base: &str, signal: Signal) -> (r: String)
    ensures
        r@ == scan::drop_trailing(base@, CharClass::One('/')) + "/v1/"@ + signal.name(),
{
    text::join3(scan::trim_end_of(base, CharClass::One('/')).as_str(), "/v1/", signal.slug())
}

/// What telemetry says of its sender.
pub open spec fn resource_of(
    service_name: Seq<char>,
    version: Seq<char>,
    node_name: Seq<char>,
    arch: Seq<char>,
    os: Seq<char>,
) -> Seq<AttrModel> {
    seq![
        telemetry::text_of("service.name"@, service_name),
        telemetry::text_of("service.version"@, version),
        telemetry::text_of("host.name"@, node_name),
        telemetry::text_of("host.arch"@, arch),
        telemetry::text_of("os.type"@, os),
        telemetry::text_of("telemetry.sdk.name"@, "opentelemetry"@),
        telemetry::text_of("telemetry.sdk.language"@, "rust"@),
    ]
}

/// What telemetry says of its sender: the service, with its version, and the
/// host, with its architecture and its system.
pub fn build_resource(
    service_name: &str,
    version: &str,
    node_name: &str,
    arch: &str,
    os: &str,
) -> (r: Vec<Attr>)
    ensures
        telemetry::attr_models(r@) == resource_of(service_name@, version@, node_name@, arch@, os@),
{
    let mut attrs: Vec<Attr> = Vec::new();
    assert(telemetry::attr_models(attrs@) =~= Seq::empty());
    telemetry::push_text(&mut attrs, "service.name", service_name);
    telemetry::push_text(&mut attrs, "service.version", version);
    telemetry::push_text(&mut attrs, "host.name", node_name);
    telemetry::push_text(&mut attrs, "host.arch", arch);
    telemetry::push_text(&mut attrs, "os.type", os);
    telemetry::push_text(&mut attrs, "telemetry.sdk.name", "opentelemetry");
    telemetry::push_text(&mut attrs, "telemetry.sdk.language", "rust");
    assert(telemetry::attr_models(attrs@) =~= resource_of(
        service_name@,
        version@,
        node_name@,
        arch@,
        os@,
    ));
    attrs
}

/// What telemetry says of its sender is each thing under its own key.
pub proof fn law_sender_is_told(
    service_name: Seq<char>,
    version: Seq<char>,
    node_name: Seq<char>,
    arch: Seq<char>,
    os: Seq<char>,
    i: int,
)
    requires
        0 <= i < resource_of(service_name, version, node_name, arch, os).len(),
    ensures
        ({
            let a = resource_of(service_name, version, node_name, arch, os)[i];
            &&& a.key == "service.name"@ ==> a.value == telemetry::ValueModel::Text(service_name)
            &&& a.key == "service.version"@ ==> a.value == telemetry::ValueModel::Text(version)
            &&& a.key == "host.name"@ ==> a.value == telemetry::ValueModel::Text(node_name)
            &&& a.key == "host.arch"@ ==> a.value == telemetry::ValueModel::Text(arch)
            &&& a.key == "os.type"@ ==> a.value == telemetry::ValueModel::Text(os)
        }),
        resource_of(service_name, version, node_name, arch, os).len() == 7,
        resource_of(service_name, version, node_name, arch, os)[0].key == "service.name"@,
        resource_of(service_name, version, node_name, arch, os)[1].key == "service.version"@,
        resource_of(service_name, version, node_name, arch, os)[2].key == "host.name"@,
        resource_of(service_name, version, node_name, arch, os)[3].key == "host.arch"@,
        resource_of(service_name, version, node_name, arch, os)[4].key == "os.type"@,
{
    reveal_strlit("service.name");
    reveal_strlit("service.version");
    reveal_strlit("host.name");
    reveal_strlit("host.arch");
    reveal_strlit("os.type");
    reveal_strlit("telemetry.sdk.name");
    reveal_strlit("telemetry.sdk.language");
    assert("service.name"@.len() == 12 && "service.version"@.len() == 15 && "host.name"@.len() == 9
        && "host.arch"@.len() == 9 && "os.type"@.len() == 7 && "telemetry.sdk.name"@.len() == 18
        && "telemetry.sdk.language"@.len() == 22);
    assert("host.name"@[5] == 'n' && "host.arch"@[5] == 'a');
}

/// What the kinds of telemetry are called.
pub proof fn law_names_of_signals(s: Signal)
    ensures
        s == Signal::Traces ==> s.name() == "traces"@,
        s == Signal::Metrics ==> s.name() == "metrics"@,
        s == Signal::Logs ==> s.name() == "logs"@,
{
}

} // verus!
