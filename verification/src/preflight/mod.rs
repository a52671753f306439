//! Preflight checks. A check looks at one accelerator and passes, warns,
//! fails, or is skipped where the sensor cannot answer it. The outcomes of a
//! cycle make up the readiness of the node.

pub mod health;
pub mod laws;
pub mod placeholder;

use crate::sensors;
use crate::sensors::common::Sysfs;
use crate::sensors::{Accelerator, Measurement};
use crate::text;
use vstd::prelude::*;

verus! {

/// What a check is about.
#[derive(Debug, Clone, Copy, PartialEq, Eq, Structural)]
pub enum CheckScope {
    SingleAccelerator,
    NodeLocal,
    NodeTopology,
    Cluster,
}

impl CheckScope {
    /// The scope's name in attributes.
    pub open spec fn name(self) -> Seq<char> {
        match self {
            CheckScope::SingleAccelerator => "single-accelerator"@,
            CheckScope::NodeLocal => "node-local"@,
            CheckScope::NodeTopology => "node-topology"@,
            CheckScope::Cluster => "cluster"@,
        }
    }

    /// The scope's name in attributes.
    pub fn slug(self) -> (r: &'static str)
        ensures
            r@ == self.name(),
    {
        match self {
            CheckScope::SingleAccelerator => "single-accelerator",
            CheckScope::NodeLocal => "node-local",
            CheckScope::NodeTopology => "node-topology",
            CheckScope::Cluster => "cluster",
        }
    }
}

/// What a check came to.
#[derive(Debug, Clone, Copy, PartialEq, Eq, Structural)]
pub enum Status {
    Pass,
    Warn,
    Fail,
    /// The sensor cannot answer the check. This is recorded, and does not
    /// make the node less ready.
    Skipped,
}

impl Status {
    /// The status's name in attributes.
    pub open spec fn name(self) -> Seq<char> {
        match self {
            Status::Pass => "pass"@,
            Status::Warn => "warn"@,
            Status::Fail => "fail"@,
            Status::Skipped => "skipped"@,
        }
    }

    /// The status's name in attributes.
    pub fn slug(self) -> (r: &'static str)
        ensures
            r@ == self.name(),
    {
        match self {
            Status::Pass => "pass",
            Status::Warn => "warn",
            Status::Fail => "fail",
            Status::Skipped => "skipped",
        }
    }
}

/// What a check came to, why, and what it measured.
#[derive(Debug)]
pub struct CheckOutcome {
    pub status: Status,
    pub message: Option<String>,
    pub measurements: Vec<Measurement>,
}

/// The model of an outcome.
#[verifier::ext_equal]
pub struct OutcomeModel {
    pub status: Status,
    pub message: Option<Seq<char>>,
    pub measurements: Seq<sensors::MeasurementModel>,
}

impl View for CheckOutcome {
    type V = OutcomeModel;

    open spec fn view(&self) -> OutcomeModel {
        OutcomeModel {
            status: self.status,
            message: text::opt_text(self.message),
            measurements: sensors::models(self.measurements@),
        }
    }
}

/// An outcome that measured nothing.
pub open spec fn bare(status: Status, message: Option<Seq<char>>) -> OutcomeModel {
    OutcomeModel { status, message, measurements: Seq::empty() }
}

impl CheckOutcome {
    fn unmeasured(status: Status, message: Option<String>) -> (r: Self)
        ensures
            r@ == bare(status, text::opt_text(message)),
    {
        let r = CheckOutcome { status, message, measurements: Vec::new() };
        assert(r@.measurements =~= Seq::empty());
        r
    }

    /// The check does not apply.
    pub fn skipped() -> (r: Self)
        ensures
            r@ == bare(Status::Skipped, None),
    {
        CheckOutcome::unmeasured(Status::Skipped, None)
    }

    /// The check cannot be answered, for the given reason.
    pub fn skipped_with(message: String) -> (r: Self)
        ensures
            r@ == bare(Status::Skipped, Some(message@)),
    {
        CheckOutcome::unmeasured(Status::Skipped, Some(message))
    }

    /// All is well.
    pub fn pass() -> (r: Self)
        ensures
            r@ == bare(Status::Pass, None),
    {
        CheckOutcome::unmeasured(Status::Pass, None)
    }

    /// The accelerator is unfit, for the given reason.
    pub fn fail(message: String) -> (r: Self)
        ensures
            r@ == bare(Status::Fail, Some(message@)),
    {
        CheckOutcome::unmeasured(Status::Fail, Some(message))
    }

    /// Something is off.
    pub fn warn(message: String) -> (r: Self)
        ensures
            r@ == bare(Status::Warn, Some(message@)),
    {
        CheckOutcome::unmeasured(Status::Warn, Some(message))
    }
}

/// What a check may look at.
pub struct CheckContext<'a> {
    pub accelerator: Option<&'a Accelerator>,
    /// What was read of sysfs.
    pub sysfs: &'a Sysfs,
    /// The accelerator's first hwmon temperature in degrees with one
    /// decimal, as shown to people; empty where there is none.
    pub temperature_shown: &'a str,
}

/// A check.
pub trait PreflightCheck {
    /// The check's name.
    fn name(&self) -> &'static str;

    /// What the check is about.
    fn scope(&self) -> CheckScope;

    /// Whether the check is meant for the accelerator.
    fn applies_to(&self, accel: &Accelerator) -> bool {
        true
    }

    /// Runs the check.
    fn run(&self, ctx: &CheckContext) -> CheckOutcome;
}

/// The checks that come with the daemon.
pub enum Check {
    AlwaysPass(placeholder::AlwaysPass),
    SensorReadable(health::SensorReadable),
    DrmRenderNodePresent(health::DrmRenderNodePresent),
    TemperatureBelowThrottle(health::TemperatureBelowThrottle),
    MemoryFloor(health::MemoryFloor),
    DriverLoaded(health::DriverLoaded),
}

impl Check {
    /// The check's name.
    pub open spec fn title(self) -> Seq<char> {
        match self {
            Check::AlwaysPass(_) => "placeholder.always_pass"@,
            Check::SensorReadable(_) => "sensor.readable"@,
            Check::DrmRenderNodePresent(_) => "drm.render_node_present"@,
            Check::TemperatureBelowThrottle(_) => "temperature.below_throttle"@,
            Check::MemoryFloor(_) => "memory.floor"@,
            Check::DriverLoaded(_) => "driver.loaded"@,
        }
    }

    /// What the check comes to.
    pub open spec fn outcome(self, ctx: CheckContext) -> OutcomeModel {
        match self {
            Check::AlwaysPass(_) => placeholder::always_pass(),
            Check::SensorReadable(_) => health::sensor_readable(ctx.accelerator),
            Check::DrmRenderNodePresent(_) => health::render_node_present(*ctx.sysfs, ctx.accelerator),
            Check::TemperatureBelowThrottle(c) => health::below_throttle(
                *ctx.sysfs,
                ctx.accelerator,
                c.threshold_millicelsius as nat,
                ctx.temperature_shown@,
            ),
            Check::MemoryFloor(c) => health::memory_floor(
                *ctx.sysfs,
                ctx.accelerator,
                c.min_free_bytes as nat,
            ),
            Check::DriverLoaded(_) => health::driver_loaded(*ctx.sysfs, ctx.accelerator),
        }
    }
}

impl PreflightCheck for Check {
    fn name(&self) -> (r: &'static str)
        ensures
            r@ == self.title(),
    {
        match self {
            Check::AlwaysPass(c) => c.name(),
            Check::SensorReadable(c) => c.name(),
            Check::DrmRenderNodePresent(c) => c.name(),
            Check::TemperatureBelowThrottle(c) => c.name(),
            Check::MemoryFloor(c) => c.name(),
            Check::DriverLoaded(c) => c.name(),
        }
    }

    fn scope(&self) -> (r: CheckScope)
        ensures
            r == CheckScope::SingleAccelerator,
    {
        CheckScope::SingleAccelerator
    }

    fn applies_to(&self, accel: &Accelerator) -> (r: bool)
        ensures
            r,
    {
        true
    }

    fn run(&self, ctx: &CheckContext) -> (r: CheckOutcome)
        ensures
            r@ == self.outcome(*ctx),
    {
        match self {
            Check::AlwaysPass(c) => c.run(ctx),
            Check::SensorReadable(c) => c.run(ctx),
            Check::DrmRenderNodePresent(c) => c.run(ctx),
            Check::TemperatureBelowThrottle(c) => c.run(ctx),
            Check::MemoryFloor(c) => c.run(ctx),
            Check::DriverLoaded(c) => c.run(ctx),
        }
    }
}

/// The checks that run unless others are given: the placeholder.
pub fn default_registry() -> (r: Vec<Check>)
    ensures
        r@ == seq![Check::AlwaysPass(placeholder::AlwaysPass)],
{
    let mut v: Vec<Check> = Vec::new();
    v.push(Check::AlwaysPass(placeholder::AlwaysPass));
    assert(v@ =~= seq![Check::AlwaysPass(placeholder::AlwaysPass)]);
    v
}

/// The readiness of a node.
#[derive(Debug, Clone, Copy, PartialEq, Eq, Structural)]
pub enum NodeReadiness {
    Ready,
    Degraded,
    NotReady,
    Unknown,
}

impl NodeReadiness {
    /// The readiness in a label.
    pub open spec fn label(self) -> Seq<char> {
        match self {
            NodeReadiness::Ready => "true"@,
            NodeReadiness::Degraded => "degraded"@,
            NodeReadiness::NotReady => "false"@,
            NodeReadiness::Unknown => "unknown"@,
        }
    }

    /// The readiness in a label.
    pub fn label_value(self) -> (r: &'static str)
        ensures
            r@ == self.label(),
    {
        match self {
            NodeReadiness::Ready => "true",
            NodeReadiness::Degraded => "degraded",
            NodeReadiness::NotReady => "false",
            NodeReadiness::Unknown => "unknown",
        }
    }
}

/// The readiness that outcomes make up: degraded by any failure or warning,
/// else ready by any pass, else unknown.
pub open spec fn verdict(outcomes: Seq<Status>) -> NodeReadiness {
    if outcomes.contains(Status::Fail) || outcomes.contains(Status::Warn) {
        NodeReadiness::Degraded
    } else if outcomes.contains(Status::Pass) {
        NodeReadiness::Ready
    } else {
        NodeReadiness::Unknown
    }
}

/// The readiness that `outcomes` make up.
pub fn aggregate(outcomes: &[Status]) -> (r: NodeReadiness)
    ensures
        r == verdict(outcomes@),
{
    let mut any_fail = false;
    let mut any_warn = false;
    let mut any_pass = false;
    let mut i: usize = 0;
    while i < outcomes.len()
        invariant
            i <= outcomes@.len(),
            any_fail == exists|k: int| 0 <= k < i && #[trigger] outcomes@[k] == Status::Fail,
            any_warn == exists|k: int| 0 <= k < i && #[trigger] outcomes@[k] == Status::Warn,
            any_pass == exists|k: int| 0 <= k < i && #[trigger] outcomes@[k] == Status::Pass,
        decreases outcomes@.len() - i,
    {
        match outcomes[i] {
            Status::Fail => {
                any_fail = true;
            },
            Status::Warn => {
                any_warn = true;
            },
            Status::Pass => {
                any_pass = true;
            },
            Status::Skipped => {},
        }
        i = i + 1;
    }
    if any_fail || any_warn {
        NodeReadiness::Degraded
    } else if any_pass {
        NodeReadiness::Ready
    } else {
        NodeReadiness::Unknown
    }
}

/// Skipped outcomes do not change the readiness.
pub proof fn law_skipped_is_neutral(outcomes: Seq<Status>)
    ensures
        verdict(outcomes.filter(|s: Status| s != Status::Skipped)) == verdict(outcomes),
{
    let keep = |s: Status| s != Status::Skipped;
    let kept = outcomes.filter(keep);
    assert forall|s: Status| s != Status::Skipped implies kept.contains(s) == outcomes.contains(s) by {
        if kept.contains(s) {
            outcomes.lemma_filter_contains_rev(keep, s);
        }
        if outcomes.contains(s) {
            let i = choose|i: int| 0 <= i < outcomes.len() && outcomes[i] == s;
            outcomes.lemma_filter_contains(keep, i);
        }
    }
}

} // verus!
