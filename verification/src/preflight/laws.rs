//! What the checks say of an accelerator, and what a cycle says of a node.

use super::health;
use super::placeholder::AlwaysPass;
use super::{Check, CheckContext, CheckOutcome, CheckScope, NodeReadiness, Status};
use crate::number;
use crate::paths;
use crate::preflight;
use crate::scan;
use crate::sensors::common;
use crate::sensors::common::Sysfs;
use crate::sensors::{AcceleratorId, Coverage, MemoryKind, Vendor};
use crate::text;
use vstd::prelude::*;

verus! {

// ---------------------------------------------------------------------
// The node
// ---------------------------------------------------------------------

/// Some outcome is this one.
pub open spec fn some_is(outcomes: Seq<Status>, s: Status) -> bool {
    exists|i: int| 0 <= i < outcomes.len() && #[trigger] outcomes[i] == s
}

/// A node is degraded if a check failed or warned on it, ready if one passed
/// and none failed or warned, and unknown if none of these came to be.
pub proof fn law_readiness_of_a_node(outcomes: Seq<Status>)
    ensures
        preflight::verdict(outcomes) == NodeReadiness::Degraded <==> some_is(outcomes, Status::Fail) || some_is(
            outcomes,
            Status::Warn,
        ),
        preflight::verdict(outcomes) == NodeReadiness::Ready <==> some_is(outcomes, Status::Pass) && !some_is(
            outcomes,
            Status::Fail,
        ) && !some_is(outcomes, Status::Warn),
        preflight::verdict(outcomes) == NodeReadiness::Unknown <==> forall|i: int|
            0 <= i < outcomes.len() ==> #[trigger] outcomes[i] == Status::Skipped,
{
    assert forall|s: Status| outcomes.contains(s) == #[trigger] some_is(outcomes, s) by {
    }
    if preflight::verdict(outcomes) == NodeReadiness::Unknown {
        assert forall|i: int| 0 <= i < outcomes.len() implies #[trigger] outcomes[i] == Status::Skipped by {
            assert(some_is(outcomes, outcomes[i]));
        }
    }
}

/// What the labels and the attributes call readiness, outcomes and scopes.
pub proof fn law_names(r: NodeReadiness, s: Status, c: CheckScope)
    ensures
        r == NodeReadiness::Ready ==> r.label() == "true"@,
        r == NodeReadiness::Degraded ==> r.label() == "degraded"@,
        r == NodeReadiness::NotReady ==> r.label() == "false"@,
        r == NodeReadiness::Unknown ==> r.label() == "unknown"@,
        s == Status::Pass ==> s.name() == "pass"@,
        s == Status::Warn ==> s.name() == "warn"@,
        s == Status::Fail ==> s.name() == "fail"@,
        s == Status::Skipped ==> s.name() == "skipped"@,
        c == CheckScope::SingleAccelerator ==> c.name() == "single-accelerator"@,
        c == CheckScope::NodeLocal ==> c.name() == "node-local"@,
        c == CheckScope::NodeTopology ==> c.name() == "node-topology"@,
        c == CheckScope::Cluster ==> c.name() == "cluster"@,
{
}

// ---------------------------------------------------------------------
// The checks
// ---------------------------------------------------------------------

/// Without an accelerator every check but the placeholder is skipped, and
/// nothing is measured.
pub proof fn law_no_accelerator_is_skipped(check: Check, ctx: CheckContext)
    requires
        ctx.accelerator is None,
        !(check is AlwaysPass),
    ensures
        check.outcome(ctx).status == Status::Skipped,
        check.outcome(ctx).measurements.len() == 0,
{
}

/// The placeholder passes, whatever it is shown.
pub proof fn law_placeholder_passes(ctx: CheckContext)
    ensures
        Check::AlwaysPass(AlwaysPass).outcome(ctx).status == Status::Pass,
        Check::AlwaysPass(AlwaysPass).outcome(ctx).message == Some("placeholder check; real preflights TBD"@),
{
}

/// An accelerator whose sensor failed fails the sensor check and is named;
/// any other passes.
pub proof fn law_sensor_check(check: health::SensorReadable, ctx: CheckContext)
    requires
        ctx.accelerator is Some,
    ensures
        ({
            let a = ctx.accelerator->0;
            let o = Check::SensorReadable(check).outcome(ctx);
            &&& a.coverage == Coverage::Failed <==> o.status == Status::Fail
            &&& a.coverage != Coverage::Failed <==> o.status == Status::Pass
            &&& o.status == Status::Fail ==> o.message == Some(
                "sensor backend reports Failed coverage for "@ + AcceleratorId::shown(a.id@),
            )
        }),
{
}

/// An accelerator passes the render node check if an entry of its `drm`
/// directory begins with `renderD`, and fails it otherwise.
pub proof fn law_render_node_check(check: health::DrmRenderNodePresent, ctx: CheckContext)
    requires
        ctx.accelerator is Some,
    ensures
        ({
            let dir = ctx.accelerator->0.device_dir@;
            let o = Check::DrmRenderNodePresent(check).outcome(ctx);
            let there = ctx.sysfs.devices@.contains_key(dir) && exists|i: int|
                0 <= i < ctx.sysfs.devices@[dir].drm@.len() && scan::has_prefix(
                    (#[trigger] ctx.sysfs.devices@[dir].drm@[i])@,
                    "renderD"@,
                );
            &&& there ==> o.status == Status::Pass
            &&& !there ==> o.status == Status::Fail && o.message == Some(
                "no renderD node under "@ + paths::joined_path(dir, "drm"@),
            )
        }),
{
}

/// The first temperature of the accelerator, in thousandths of a degree.
pub open spec fn temperature(fs: Sysfs, dir: Seq<char>) -> Option<nat> {
    common::first_temperature(common::hwmon_of(fs, dir))
}

/// An accelerator fails the temperature check at the threshold and above it,
/// is warned of from ten degrees below it on, and passes
/// below that. The temperature that was seen is what was measured. Without
/// a temperature the check is skipped.
pub proof fn law_temperature_check(check: health::TemperatureBelowThrottle, ctx: CheckContext)
    requires
        ctx.accelerator is Some,
    ensures
        ({
            let t = temperature(*ctx.sysfs, ctx.accelerator->0.device_dir@);
            let o = Check::TemperatureBelowThrottle(check).outcome(ctx);
            let top = check.threshold_millicelsius;
            &&& t is None ==> o.status == Status::Skipped && o.measurements.len() == 0
            &&& t is Some && t->0 >= top ==> o.status == Status::Fail
            &&& t is Some && t->0 < top && top <= t->0 + 10_000 ==> o.status == Status::Warn
            &&& t is Some && t->0 + 10_000 < top ==> o.status == Status::Pass && o.message is None
            &&& t is None ==> o.message == Some("no hwmon temp1_input on this accelerator"@)
            &&& o.status == Status::Fail ==> o.message == Some(
                "temperature "@ + ctx.temperature_shown@ + " °C ≥ "@ + health::thousandths(top as nat)
                    + " °C threshold"@,
            )
            &&& o.status == Status::Warn ==> o.message == Some(
                "temperature "@ + ctx.temperature_shown@ + " °C is within 10 °C of threshold"@,
            )
            &&& t is Some && t->0 <= u64::MAX ==> o.measurements.len() == 1 && o.measurements[0].name
                == "accel.preflight.temperature"@ && o.measurements[0].unit == "Cel"@
                && o.measurements[0].value.raw == t->0 && o.measurements[0].value.divisor == 1000
                && o.measurements[0].description == "Temperature observed by the throttle preflight check."@
        }),
{
}

/// A hotter accelerator does not fare better.
pub proof fn law_hotter_is_not_better(
    check: health::TemperatureBelowThrottle,
    cool: CheckContext,
    hot: CheckContext,
)
    requires
        cool.accelerator is Some,
        hot.accelerator is Some,
        temperature(*cool.sysfs, cool.accelerator->0.device_dir@) is Some,
        temperature(*hot.sysfs, hot.accelerator->0.device_dir@) is Some,
        temperature(*cool.sysfs, cool.accelerator->0.device_dir@)->0 <= temperature(
            *hot.sysfs,
            hot.accelerator->0.device_dir@,
        )->0,
    ensures
        Check::TemperatureBelowThrottle(check).outcome(hot).status == Status::Pass
            ==> Check::TemperatureBelowThrottle(check).outcome(cool).status == Status::Pass,
        Check::TemperatureBelowThrottle(check).outcome(cool).status == Status::Fail
            ==> Check::TemperatureBelowThrottle(check).outcome(hot).status == Status::Fail,
{
}

/// Unified memory is looked up in the GTT files and dedicated memory in the
/// video memory files. The check fails if less than the floor is free of what
/// the one file holds when what the other holds is taken off, and what is
/// free is what was measured.
pub proof fn law_memory_check(check: health::MemoryFloor, ctx: CheckContext, total: nat, used: nat)
    requires
        ctx.accelerator is Some,
        ctx.accelerator->0.coverage != Coverage::IdentificationOnly,
        ({
            let dir = ctx.accelerator->0.device_dir@;
            match ctx.accelerator->0.memory_kind {
                MemoryKind::Unified => {
                    &&& common::u64_in(ctx.sysfs.file(dir, "mem_info_gtt_total"@)) == Some(total)
                    &&& common::u64_in(ctx.sysfs.file(dir, "mem_info_gtt_used"@)) == Some(used)
                },
                MemoryKind::Dedicated => {
                    &&& common::u64_in(ctx.sysfs.file(dir, "mem_info_vram_total"@)) == Some(total)
                    &&& common::u64_in(ctx.sysfs.file(dir, "mem_info_vram_used"@)) == Some(used)
                },
                _ => false,
            }
        }),
    ensures
        ({
            let o = Check::MemoryFloor(check).outcome(ctx);
            let floor = check.min_free_bytes;
            let free = total - used;
            &&& o.measurements.len() == 1
            &&& o.measurements[0].name == "accel.preflight.memory.free"@
            &&& o.measurements[0].unit == "By"@
            &&& o.measurements[0].description == "Free memory observed by the floor preflight check."@
            &&& o.measurements[0].value.divisor == 1
            &&& free >= 0 ==> o.measurements[0].value.raw == free
            &&& free < 0 ==> o.measurements[0].value.raw == 0
            &&& (free < floor && 0 < floor) <==> o.status == Status::Fail
            &&& (free >= floor || 0 == floor) <==> o.status == Status::Pass
            &&& o.status == Status::Fail && free >= 0 ==> o.message == Some(
                "free "@ + number::decimal(free as nat) + " < required "@ + number::decimal(floor as nat)
                    + " bytes"@,
            )
        }),
{
}

/// Where the accelerator's memory is not accounted for, the memory check is
/// skipped; where nothing says how much is used, nothing is.
pub proof fn law_memory_check_without_files(check: health::MemoryFloor, ctx: CheckContext)
    requires
        ctx.accelerator is Some,
    ensures
        ({
            let a = ctx.accelerator->0;
            let dir = a.device_dir@;
            let o = Check::MemoryFloor(check).outcome(ctx);
            let gtt = common::u64_in(ctx.sysfs.file(dir, "mem_info_gtt_total"@));
            let vram = common::u64_in(ctx.sysfs.file(dir, "mem_info_vram_total"@));
            &&& a.coverage == Coverage::IdentificationOnly ==> o.status == Status::Skipped && o.message == Some(
                "identification-only sensor cannot report free memory"@,
            )
            &&& a.memory_kind == MemoryKind::Shared ==> o.status == Status::Skipped
            &&& a.memory_kind == MemoryKind::Unknown ==> o.status == Status::Skipped
            &&& a.coverage != Coverage::IdentificationOnly && a.memory_kind == MemoryKind::Shared ==> o.message == Some(
                "memory kind doesn't expose sysfs accounting"@,
            )
            &&& a.coverage != Coverage::IdentificationOnly && a.memory_kind == MemoryKind::Unified && gtt is None
                ==> o.message == Some("missing "@ + "mem_info_gtt_total"@)
            &&& a.coverage != Coverage::IdentificationOnly && a.memory_kind == MemoryKind::Dedicated && vram is None
                ==> o.message == Some("missing "@ + "mem_info_vram_total"@)
            &&& a.memory_kind == MemoryKind::Unified && gtt is None ==> o.status == Status::Skipped
            &&& a.memory_kind == MemoryKind::Dedicated && vram is None ==> o.status == Status::Skipped
            &&& a.coverage != Coverage::IdentificationOnly && a.memory_kind == MemoryKind::Dedicated && vram is Some
                && common::u64_in(ctx.sysfs.file(dir, "mem_info_vram_used"@)) is None ==> (o.status == Status::Pass
                <==> vram->0 >= check.min_free_bytes)
            &&& a.coverage != Coverage::IdentificationOnly && a.memory_kind == MemoryKind::Unified && gtt is Some
                && common::u64_in(ctx.sysfs.file(dir, "mem_info_gtt_used"@)) is None ==> (o.status == Status::Pass
                <==> gtt->0 >= check.min_free_bytes)
        }),
{
}

/// The driver is the vendor's own.
pub open spec fn is_own_driver(vendor: Vendor, name: Seq<char>) -> bool {
    ||| vendor == Vendor::Amd && name == "amdgpu"@
    ||| vendor == Vendor::Nvidia && name == "nvidia"@
    ||| vendor == Vendor::Intel && (name == "i915"@ || name == "xe"@)
}

/// The drivers of a vendor, as people are told of them.
pub open spec fn named_driver(vendor: Vendor) -> Seq<char> {
    match vendor {
        Vendor::Intel => "i915 or xe"@,
        Vendor::Nvidia => "nvidia"@,
        Vendor::Amd => "amdgpu"@,
        Vendor::Other => "?"@,
    }
}

/// An accelerator without a driver fails the driver check, one with its
/// vendor's passes, and one with another is warned of.
pub proof fn law_driver_check(check: health::DriverLoaded, ctx: CheckContext)
    requires
        ctx.accelerator is Some,
    ensures
        ({
            let a = ctx.accelerator->0;
            let dir = a.device_dir@;
            let o = Check::DriverLoaded(check).outcome(ctx);
            let driver = if ctx.sysfs.devices@.contains_key(dir) {
                text::opt_text(ctx.sysfs.devices@[dir].driver)
            } else {
                None
            };
            &&& driver is None <==> o.status == Status::Fail
            &&& (driver is Some && is_own_driver(a.id.vendor, driver->0)) <==> o.status == Status::Pass
            &&& (driver is Some && !is_own_driver(a.id.vendor, driver->0)) <==> o.status == Status::Warn
            &&& o.measurements.len() == 0
            &&& o.status == Status::Fail ==> o.message == Some(
                "device/driver symlink missing — kernel module not bound?"@,
            )
            &&& o.status == Status::Warn && driver->0.len() > 0 ==> o.message == Some(
                "driver="@ + driver->0 + ", expected "@ + named_driver(a.id.vendor),
            )
            &&& o.status == Status::Warn && driver->0.len() == 0 ==> o.message == Some(
                "driver="@ + "?"@ + ", expected "@ + named_driver(a.id.vendor),
            )
        }),
{
    reveal_strlit("amdgpu");
    reveal_strlit("nvidia");
    reveal_strlit("i915");
    reveal_strlit("xe");
    reveal_strlit("?");
    assert("?"@.len() == 1 && "amdgpu"@.len() == 6 && "nvidia"@.len() == 6 && "i915"@.len() == 4 && "xe"@.len() == 2);
}

/// The name that each check goes by.
pub proof fn law_titles_of_checks(check: Check)
    ensures
        check is AlwaysPass ==> check.title() == "placeholder.always_pass"@,
        check is SensorReadable ==> check.title() == "sensor.readable"@,
        check is DrmRenderNodePresent ==> check.title() == "drm.render_node_present"@,
        check is TemperatureBelowThrottle ==> check.title() == "temperature.below_throttle"@,
        check is MemoryFloor ==> check.title() == "memory.floor"@,
        check is DriverLoaded ==> check.title() == "driver.loaded"@,
{
}

// ---------------------------------------------------------------------
// Models
// ---------------------------------------------------------------------

/// The model of an outcome says of each thing what the outcome says of it.
pub proof fn law_model_of_an_outcome(o: CheckOutcome)
    ensures
        o@.status == o.status,
        o@.message == text::opt_text(o.message),
        o@.measurements.len() == o.measurements@.len(),
        forall|i: int| 0 <= i < o.measurements@.len() ==> #[trigger] o@.measurements[i] == o.measurements@[i]@,
{
}


// ---------------------------------------------------------------------
// Thousandths
// ---------------------------------------------------------------------

/// The digits are the decimals of so many thousandths, without zeros at their
/// end.
pub open spec fn are_decimals(s: Seq<char>, thousandths: nat) -> bool {
    &&& 1 <= s.len() <= 3
    &&& s.last() != '0'
    &&& s.len() == 1 ==> number::value_of(s, 10) * 100 == thousandths
    &&& s.len() == 2 ==> number::value_of(s, 10) * 10 == thousandths
    &&& s.len() == 3 ==> number::value_of(s, 10) == thousandths
}

/// A number of thousandths is shown as the whole part, and, where something
/// is left, a point and the decimals.
pub proof fn law_thousandths_are_shown(n: nat) -> (decimals: Seq<char>)
    ensures
        n % 1000 == 0 ==> health::thousandths(n) == number::decimal(n / 1000),
        n % 1000 != 0 ==> health::thousandths(n) == number::decimal(n / 1000) + "."@ + decimals,
        n % 1000 != 0 ==> are_decimals(decimals, n % 1000),
{
    let rest = n % 1000;
    reveal_with_fuel(number::value_of, 4);
    reveal_with_fuel(number::numeral, 2);
    reveal_with_fuel(number::fixed, 4);
    reveal_with_fuel(number::ten_to, 4);
    if rest % 100 == 0 {
        let s = number::decimal(rest / 100);
        assert(s =~= seq![number::digit_char(rest / 100)]);
        assert(s.drop_last() =~= Seq::empty());
        s
    } else if rest % 10 == 0 {
        let m = rest / 10;
        number::lemma_padded_is_fixed(m, 2);
        let s = number::fixed(m, 2);
        assert(s =~= seq![number::digit_char((m / 10) % 10), number::digit_char(m % 10)]);
        assert(s.drop_last() =~= seq![number::digit_char((m / 10) % 10)]);
        assert(s.drop_last().drop_last() =~= Seq::empty());
        s
    } else {
        number::lemma_padded_is_fixed(rest, 3);
        let s = number::fixed(rest, 3);
        let (a, b, c) = (rest / 10 / 10 % 10, rest / 10 % 10, rest % 10);
        assert(s =~= seq![number::digit_char(a), number::digit_char(b), number::digit_char(c)]);
        assert(s.drop_last() =~= seq![number::digit_char(a), number::digit_char(b)]);
        assert(s.drop_last().drop_last() =~= seq![number::digit_char(a)]);
        assert(s.drop_last().drop_last().drop_last() =~= Seq::empty());
        s
    }
}


} // verus!
