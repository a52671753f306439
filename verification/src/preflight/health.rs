//! Checks that sysfs can answer.

use super::{CheckContext, CheckOutcome, CheckScope, OutcomeModel, PreflightCheck, Status};
use crate::number;
use crate::paths;
use crate::preflight;
use crate::scan;
use crate::sensors;
use crate::sensors::amd;
use crate::sensors::common;
use crate::sensors::common::Sysfs;
use crate::sensors::{Accelerator, AcceleratorId, Coverage, Measurement, MemoryKind, Ratio, Vendor};
use crate::text;
use vstd::prelude::*;

verus! {

// ---------------------------------------------------------------------
// Sensor
// ---------------------------------------------------------------------

/// Fails where the sensor's own reads fail.
#[derive(Clone, Copy)]
pub struct SensorReadable;

/// What `SensorReadable` comes to.
pub open spec fn sensor_readable(accel: Option<&Accelerator>) -> OutcomeModel {
    match accel {
        None => preflight::bare(Status::Skipped, None),
        Some(a) => if a.coverage == Coverage::Failed {
            preflight::bare(
                Status::Fail,
                Some("sensor backend reports Failed coverage for "@ + AcceleratorId::shown(a.id@)),
            )
        } else {
            preflight::bare(Status::Pass, None)
        },
    }
}

impl PreflightCheck for SensorReadable {
    fn name(&self) -> (r: &'static str)
        ensures
            r@ == "sensor.readable"@,
    {
        "sensor.readable"
    }

    fn scope(&self) -> (r: CheckScope)
        ensures
            r == CheckScope::SingleAccelerator,
    {
        CheckScope::SingleAccelerator
    }

    fn run(&self, ctx: &CheckContext) -> (r: CheckOutcome)
        ensures
            r@ == sensor_readable(ctx.accelerator),
    {
        match ctx.accelerator {
            None => CheckOutcome::skipped(),
            Some(a) => match a.coverage {
                Coverage::Failed => CheckOutcome::fail(
                    text::join2("sensor backend reports Failed coverage for ", a.id.render().as_str()),
                ),
                Coverage::IdentificationOnly | Coverage::Full => CheckOutcome::pass(),
            },
        }
    }
}

// ---------------------------------------------------------------------
// Render node
// ---------------------------------------------------------------------

/// Fails where the device has no render node, so that no one can use it.
#[derive(Clone, Copy)]
pub struct DrmRenderNodePresent;

/// The device's `drm` directory has a render node.
pub open spec fn has_render_node(fs: Sysfs, dir: Seq<char>) -> bool {
    fs.devices@.contains_key(dir) && exists|i: int|
        0 <= i < fs.devices@[dir].drm@.len() && scan::has_prefix(
            (#[trigger] fs.devices@[dir].drm@[i])@,
            "renderD"@,
        )
}

/// What `DrmRenderNodePresent` comes to.
pub open spec fn render_node_present(fs: Sysfs, accel: Option<&Accelerator>) -> OutcomeModel {
    match accel {
        None => preflight::bare(Status::Skipped, None),
        Some(a) => if has_render_node(fs, a.device_dir@) {
            preflight::bare(Status::Pass, None)
        } else {
            preflight::bare(
                Status::Fail,
                Some("no renderD node under "@ + paths::joined_path(a.device_dir@, "drm"@)),
            )
        },
    }
}

fn render_node(fs: &Sysfs, dir: &str) -> (r: bool)
    ensures
        r == has_render_node(*fs, dir@),
{
    match fs.devices.get(dir) {
        None => false,
        Some(d) => {
            let mut i: usize = 0;
            while i < d.drm.len()
                invariant
                    fs.devices@.contains_key(dir@),
                    *d == fs.devices@[dir@],
                    i <= d.drm@.len(),
                    forall|k: int| 0 <= k < i ==> !scan::has_prefix((#[trigger] d.drm@[k])@, "renderD"@),
                decreases d.drm@.len() - i,
            {
                if scan::starts_with(d.drm[i].as_str(), "renderD") {
                    return true;
                }
                i = i + 1;
            }
            false
        },
    }
}

impl PreflightCheck for DrmRenderNodePresent {
    fn name(&self) -> (r: &'static str)
        ensures
            r@ == "drm.render_node_present"@,
    {
        "drm.render_node_present"
    }

    fn scope(&self) -> (r: CheckScope)
        ensures
            r == CheckScope::SingleAccelerator,
    {
        CheckScope::SingleAccelerator
    }

    fn run(&self, ctx: &CheckContext) -> (r: CheckOutcome)
        ensures
            r@ == render_node_present(*ctx.sysfs, ctx.accelerator),
    {
        match ctx.accelerator {
            None => CheckOutcome::skipped(),
            Some(a) => if render_node(ctx.sysfs, a.device_dir.as_str()) {
                CheckOutcome::pass()
            } else {
                let drm_dir = paths::join(a.device_dir.as_str(), "drm");
                CheckOutcome::fail(text::join2("no renderD node under ", drm_dir.as_str()))
            },
        }
    }
}

// ---------------------------------------------------------------------
// Temperature
// ---------------------------------------------------------------------

/// Fails from a temperature on, and warns from ten degrees below it.
#[derive(Clone, Copy)]
pub struct TemperatureBelowThrottle {
    /// Thousandths of a degree Celsius.
    pub threshold_millicelsius: u32,
}

impl Default for TemperatureBelowThrottle {
    fn default() -> (r: Self)
        ensures
            r.threshold_millicelsius == 95_000,
    {
        TemperatureBelowThrottle { threshold_millicelsius: 95_000 }
    }
}

/// A number of thousandths as a decimal fraction, without trailing zeros.
pub open spec fn thousandths(n: nat) -> Seq<char> {
    let whole = number::decimal(n / 1000);
    let rest = n % 1000;
    if rest == 0 {
        whole
    } else if rest % 100 == 0 {
        whole + "."@ + number::decimal(rest / 100)
    } else if rest % 10 == 0 {
        whole + "."@ + number::zero_padded(number::decimal(rest / 10), 2)
    } else {
        whole + "."@ + number::zero_padded(number::decimal(rest), 3)
    }
}

fn show_thousandths(n: u32) -> (r: String)
    ensures
        r@ == thousandths(n as nat),
{
    let whole = number::dec((n / 1000) as u64);
    let rest: u64 = (n % 1000) as u64;
    if rest == 0 {
        whole
    } else if rest % 100 == 0 {
        text::join3(whole.as_str(), ".", number::dec(rest / 100).as_str())
    } else if rest % 10 == 0 {
        text::join3(whole.as_str(), ".", number::dec_padded(rest / 10, 2).as_str())
    } else {
        text::join3(whole.as_str(), ".", number::dec_padded(rest, 3).as_str())
    }
}

/// The temperature that the check saw.
pub open spec fn seen_temperature(t: nat) -> Seq<sensors::MeasurementModel> {
    seq![
        sensors::plain(
            "accel.preflight.temperature"@,
            "Cel"@,
            "Temperature observed by the throttle preflight check."@,
            Ratio { raw: t as u64, divisor: 1000 },
        ),
    ]
}

/// What `TemperatureBelowThrottle` comes to. `shown` is the temperature as
/// shown to people.
pub open spec fn below_throttle(
    fs: Sysfs,
    accel: Option<&Accelerator>,
    threshold: nat,
    shown: Seq<char>,
) -> OutcomeModel {
    match accel {
        None => preflight::bare(Status::Skipped, None),
        Some(a) => match common::first_temperature(common::hwmon_of(fs, a.device_dir@)) {
            None => preflight::bare(Status::Skipped, Some("no hwmon temp1_input on this accelerator"@)),
            Some(t) => if t >= threshold {
                OutcomeModel {
                    status: Status::Fail,
                    message: Some("temperature "@ + shown + " °C ≥ "@ + thousandths(threshold) + " °C threshold"@),
                    measurements: seen_temperature(t),
                }
            } else if t + 10_000 >= threshold {
                OutcomeModel {
                    status: Status::Warn,
                    message: Some("temperature "@ + shown + " °C is within 10 °C of threshold"@),
                    measurements: seen_temperature(t),
                }
            } else {
                OutcomeModel { status: Status::Pass, message: None, measurements: seen_temperature(t) }
            },
        },
    }
}

impl PreflightCheck for TemperatureBelowThrottle {
    fn name(&self) -> (r: &'static str)
        ensures
            r@ == "temperature.below_throttle"@,
    {
        "temperature.below_throttle"
    }

    fn scope(&self) -> (r: CheckScope)
        ensures
            r == CheckScope::SingleAccelerator,
    {
        CheckScope::SingleAccelerator
    }

    fn run(&self, ctx: &CheckContext) -> (r: CheckOutcome)
        ensures
            r@ == below_throttle(
                *ctx.sysfs,
                ctx.accelerator,
                self.threshold_millicelsius as nat,
                ctx.temperature_shown@,
            ),
    {
        let a = match ctx.accelerator {
            None => {
                return CheckOutcome::skipped();
            },
            Some(a) => a,
        };
        let temp: Ratio = match common::hwmon_temperature_celsius(ctx.sysfs, a.device_dir.as_str()) {
            None => {
                return CheckOutcome::skipped_with("no hwmon temp1_input on this accelerator".to_owned());
            },
            Some(t) => t,
        };
        let ghost t = common::first_temperature(common::hwmon_of(*ctx.sysfs, a.device_dir@))->0;
        proof {
            lemma_temperature_bound(common::hwmon_of(*ctx.sysfs, a.device_dir@));
        }
        let mut measurements: Vec<Measurement> = Vec::new();
        let seen = common::measurement(
            "accel.preflight.temperature",
            "Cel",
            "Temperature observed by the throttle preflight check.",
            temp,
        );
        let ghost m = seen@;
        measurements.push(seen);
        assert(sensors::models(measurements@) =~= seq![m]);
        let threshold: u64 = self.threshold_millicelsius as u64;
        let mut message = text::join2("temperature ", ctx.temperature_shown);
        if temp.raw >= threshold {
            message.append(" °C ≥ ");
            message.append(show_thousandths(self.threshold_millicelsius).as_str());
            message.append(" °C threshold");
            CheckOutcome { status: Status::Fail, message: Some(message), measurements }
        } else if temp.raw + 10_000 >= threshold {
            message.append(" °C is within 10 °C of threshold");
            CheckOutcome { status: Status::Warn, message: Some(message), measurements }
        } else {
            CheckOutcome { status: Status::Pass, message: None, measurements }
        }
    }
}

proof fn lemma_temperature_bound(hwmon: Seq<common::HwmonEntry>)
    ensures
        match common::first_temperature(hwmon) {
            Some(t) => t <= u64::MAX,
            None => true,
        },
    decreases hwmon.len(),
{
    if hwmon.len() > 0 {
        lemma_temperature_bound(hwmon.drop_first());
    }
}

// ---------------------------------------------------------------------
// Memory
// ---------------------------------------------------------------------

/// Fails where less than so much of the accelerator's memory is free.
#[derive(Clone, Copy)]
pub struct MemoryFloor {
    pub min_free_bytes: u64,
}

impl Default for MemoryFloor {
    fn default() -> (r: Self)
        ensures
            r.min_free_bytes == 1_073_741_824,
    {
        MemoryFloor { min_free_bytes: 1_073_741_824 }
    }
}

/// The files that hold the size and the used part of a kind of memory.
pub open spec fn memory_files(kind: MemoryKind) -> Option<(Seq<char>, Seq<char>)> {
    match kind {
        MemoryKind::Unified => Some(("mem_info_gtt_total"@, "mem_info_gtt_used"@)),
        MemoryKind::Dedicated => Some(("mem_info_vram_total"@, "mem_info_vram_used"@)),
        _ => None,
    }
}

/// A difference, or zero.
pub open spec fn minus(a: nat, b: nat) -> nat {
    if a >= b {
        (a - b) as nat
    } else {
        0
    }
}

/// What `MemoryFloor` comes to.
pub open spec fn memory_floor(fs: Sysfs, accel: Option<&Accelerator>, min_free: nat) -> OutcomeModel {
    match accel {
        None => preflight::bare(Status::Skipped, None),
        Some(a) => if a.coverage == Coverage::IdentificationOnly {
            preflight::bare(
                Status::Skipped,
                Some("identification-only sensor cannot report free memory"@),
            )
        } else {
            match memory_files(a.memory_kind) {
                None => preflight::bare(
                    Status::Skipped,
                    Some("memory kind doesn't expose sysfs accounting"@),
                ),
                Some((total_file, used_file)) => match common::u64_in(fs.file(a.device_dir@, total_file)) {
                    None => preflight::bare(Status::Skipped, Some("missing "@ + total_file)),
                    Some(total) => {
                        let free = minus(total, amd::or_zero(common::u64_in(fs.file(a.device_dir@, used_file))));
                        let seen = seq![
                            sensors::plain(
                                "accel.preflight.memory.free"@,
                                "By"@,
                                "Free memory observed by the floor preflight check."@,
                                Ratio { raw: free as u64, divisor: 1 },
                            ),
                        ];
                        if free < min_free {
                            OutcomeModel {
                                status: Status::Fail,
                                message: Some(
                                    "free "@ + number::decimal(free) + " < required "@ + number::decimal(min_free)
                                        + " bytes"@,
                                ),
                                measurements: seen,
                            }
                        } else {
                            OutcomeModel { status: Status::Pass, message: None, measurements: seen }
                        }
                    },
                },
            }
        },
    }
}

impl PreflightCheck for MemoryFloor {
    fn name(&self) -> (r: &'static str)
        ensures
            r@ == "memory.floor"@,
    {
        "memory.floor"
    }

    fn scope(&self) -> (r: CheckScope)
        ensures
            r == CheckScope::SingleAccelerator,
    {
        CheckScope::SingleAccelerator
    }

    fn run(&self, ctx: &CheckContext) -> (r: CheckOutcome)
        ensures
            r@ == memory_floor(*ctx.sysfs, ctx.accelerator, self.min_free_bytes as nat),
    {
        let a = match ctx.accelerator {
            None => {
                return CheckOutcome::skipped();
            },
            Some(a) => a,
        };
        match a.coverage {
            Coverage::IdentificationOnly => {
                return CheckOutcome::skipped_with(
                    "identification-only sensor cannot report free memory".to_owned(),
                );
            },
            _ => {},
        }
        let (total_file, used_file) = match a.memory_kind {
            MemoryKind::Unified => ("mem_info_gtt_total", "mem_info_gtt_used"),
            MemoryKind::Dedicated => ("mem_info_vram_total", "mem_info_vram_used"),
            _ => {
                return CheckOutcome::skipped_with("memory kind doesn't expose sysfs accounting".to_owned());
            },
        };
        let dir = a.device_dir.as_str();
        let total: u64 = match common::read_u64(ctx.sysfs.read(dir, total_file)) {
            None => {
                return CheckOutcome::skipped_with(text::join2("missing ", total_file));
            },
            Some(n) => n,
        };
        let used: u64 = match common::read_u64(ctx.sysfs.read(dir, used_file)) {
            None => 0,
            Some(n) => n,
        };
        let free: u64 = total.saturating_sub(used);
        let mut measurements: Vec<Measurement> = Vec::new();
        let seen = common::measurement(
            "accel.preflight.memory.free",
            "By",
            "Free memory observed by the floor preflight check.",
            Ratio { raw: free, divisor: 1 },
        );
        let ghost m = seen@;
        measurements.push(seen);
        assert(sensors::models(measurements@) =~= seq![m]);
        if free < self.min_free_bytes {
            let mut message = text::join3("free ", number::dec(free).as_str(), " < required ");
            message.append(number::dec(self.min_free_bytes).as_str());
            message.append(" bytes");
            CheckOutcome { status: Status::Fail, message: Some(message), measurements }
        } else {
            CheckOutcome { status: Status::Pass, message: None, measurements }
        }
    }
}

// ---------------------------------------------------------------------
// Driver
// ---------------------------------------------------------------------

/// Fails where no kernel driver is bound to the device, and warns where it
/// is not one of the vendor's.
#[derive(Clone, Copy)]
pub struct DriverLoaded;

/// The vendor's driver, as named to people.
pub open spec fn expected_driver_of(vendor: Vendor) -> Seq<char> {
    match vendor {
        Vendor::Amd => "amdgpu"@,
        Vendor::Nvidia => "nvidia"@,
        Vendor::Intel => "i915 or xe"@,
        Vendor::Other => "?"@,
    }
}

/// The driver is one of the vendor's.
pub open spec fn accepts(vendor: Vendor, name: Seq<char>) -> bool {
    match vendor {
        Vendor::Amd => name == "amdgpu"@,
        Vendor::Nvidia => name == "nvidia"@,
        Vendor::Intel => name == "i915"@ || name == "xe"@,
        Vendor::Other => false,
    }
}

/// The name of the driver bound to a device; `?` for one whose name is no
/// text.
pub open spec fn bound_driver(fs: Sysfs, dir: Seq<char>) -> Option<Seq<char>> {
    if fs.devices@.contains_key(dir) {
        match fs.devices@[dir].driver {
            Some(s) => if s@.len() > 0 {
                Some(s@)
            } else {
                Some("?"@)
            },
            None => None,
        }
    } else {
        None
    }
}

/// What `DriverLoaded` comes to.
pub open spec fn driver_loaded(fs: Sysfs, accel: Option<&Accelerator>) -> OutcomeModel {
    match accel {
        None => preflight::bare(Status::Skipped, None),
        Some(a) => match bound_driver(fs, a.device_dir@) {
            None => preflight::bare(
                Status::Fail,
                Some("device/driver symlink missing — kernel module not bound?"@),
            ),
            Some(name) => if accepts(a.id.vendor, name) {
                preflight::bare(Status::Pass, None)
            } else {
                preflight::bare(
                    Status::Warn,
                    Some("driver="@ + name + ", expected "@ + expected_driver_of(a.id.vendor)),
                )
            },
        },
    }
}

/// The vendor's driver, as named to people.
pub fn expected_driver(vendor: Vendor) -> (r: &'static str)
    ensures
        r@ == expected_driver_of(vendor),
{
    match vendor {
        Vendor::Amd => "amdgpu",
        Vendor::Nvidia => "nvidia",
        Vendor::Intel => "i915 or xe",
        Vendor::Other => "?",
    }
}

/// Whether the driver `name` is one of the vendor's.
pub fn accepts_driver(vendor: Vendor, name: &str) -> (r: bool)
    ensures
        r == accepts(vendor, name@),
{
    match vendor {
        Vendor::Amd => text::same(name, "amdgpu"),
        Vendor::Nvidia => text::same(name, "nvidia"),
        Vendor::Intel => text::same(name, "i915") || text::same(name, "xe"),
        Vendor::Other => false,
    }
}

fn driver_name(fs: &Sysfs, dir: &str) -> (r: Option<String>)
    ensures
        text::opt_text(r) == bound_driver(*fs, dir@),
{
    match fs.devices.get(dir) {
        None => None,
        Some(d) => match &d.driver {
            None => None,
            Some(s) => if text::is_empty(s.as_str()) {
                Some("?".to_owned())
            } else {
                Some(s.clone())
            },
        },
    }
}

impl PreflightCheck for DriverLoaded {
    fn name(&self) -> (r: &'static str)
        ensures
            r@ == "driver.loaded"@,
    {
        "driver.loaded"
    }

    fn scope(&self) -> (r: CheckScope)
        ensures
            r == CheckScope::SingleAccelerator,
    {
        CheckScope::SingleAccelerator
    }

    fn run(&self, ctx: &CheckContext) -> (r: CheckOutcome)
        ensures
            r@ == driver_loaded(*ctx.sysfs, ctx.accelerator),
    {
        match ctx.accelerator {
            None => CheckOutcome::skipped(),
            Some(a) => match driver_name(ctx.sysfs, a.device_dir.as_str()) {
                None => CheckOutcome::fail(
                    "device/driver symlink missing — kernel module not bound?".to_owned(),
                ),
                Some(name) => if accepts_driver(a.id.vendor, name.as_str()) {
                    CheckOutcome::pass()
                } else {
                    let mut message = text::join3("driver=", name.as_str(), ", expected ");
                    message.append(expected_driver(a.id.vendor));
                    CheckOutcome::warn(message)
                },
            },
        }
    }
}

} // verus!
